//! The border scanner: the smallest rectangle that holds every pixel that is
//! not black, found by four scans that do not depend on each other.

use vstd::prelude::*;
use crate::buffer::PixelBuffer;
use crate::error::EngineError;
use crate::processing::cropped;
use crate::processing::lemma_cropped;
use crate::processing::outcome_view;
use crate::processing::Processing;
use crate::raster::Color;
use crate::raster::Raster;

verus! {

/// The threshold of the border scan where none is given.
pub const DEFAULT_THRESHOLD: u8 = 40;

/// Whether no sample of the colour is brighter than the threshold.
pub open spec fn is_black(c: Color, threshold: u8) -> bool {
    c.0 <= threshold && c.1 <= threshold && c.2 <= threshold
}

/// Whether `(x, y)` lies in the raster and is not black.
pub open spec fn has_content_at(r: Raster, threshold: u8, x: int, y: int) -> bool {
    r.contains(x, y) && !is_black(r.at(x, y), threshold)
}

pub open spec fn row_has_content(r: Raster, threshold: u8, y: int) -> bool {
    exists|x: int| has_content_at(r, threshold, x, y)
}

pub open spec fn column_has_content(r: Raster, threshold: u8, x: int) -> bool {
    exists|y: int| has_content_at(r, threshold, x, y)
}

/// Whether any pixel of the raster is not black.
pub open spec fn has_content(r: Raster, threshold: u8) -> bool {
    exists|x: int, y: int| has_content_at(r, threshold, x, y)
}

/// `e` is the first row from the top that holds a pixel that is not black.
pub open spec fn is_top_edge(r: Raster, threshold: u8, e: int) -> bool {
    &&& 0 <= e < r.height
    &&& row_has_content(r, threshold, e)
    &&& forall|y: int| 0 <= y < e ==> !row_has_content(r, threshold, y)
}

/// `e` is the last row from the top that holds a pixel that is not black.
pub open spec fn is_bottom_edge(r: Raster, threshold: u8, e: int) -> bool {
    &&& 0 <= e < r.height
    &&& row_has_content(r, threshold, e)
    &&& forall|y: int| e < y < r.height ==> !row_has_content(r, threshold, y)
}

/// `e` is the first column from the left that holds a pixel that is not
/// black.
pub open spec fn is_left_edge(r: Raster, threshold: u8, e: int) -> bool {
    &&& 0 <= e < r.width
    &&& column_has_content(r, threshold, e)
    &&& forall|x: int| 0 <= x < e ==> !column_has_content(r, threshold, x)
}

/// `e` is the last column from the left that holds a pixel that is not
/// black.
pub open spec fn is_right_edge(r: Raster, threshold: u8, e: int) -> bool {
    &&& 0 <= e < r.width
    &&& column_has_content(r, threshold, e)
    &&& forall|x: int| e < x < r.width ==> !column_has_content(r, threshold, x)
}

/// A rectangle of a raster by its first and last column and row.
pub struct ContentBox {
    pub left: int,
    pub top: int,
    pub right: int,
    pub bottom: int,
}

/// Each side of the box is the outermost row or column that holds a pixel
/// that is not black.
pub open spec fn is_content_box(r: Raster, threshold: u8, b: ContentBox) -> bool {
    &&& is_left_edge(r, threshold, b.left)
    &&& is_top_edge(r, threshold, b.top)
    &&& is_right_edge(r, threshold, b.right)
    &&& is_bottom_edge(r, threshold, b.bottom)
}

/// The content box of a raster that has content.
pub open spec fn content_box(r: Raster, threshold: u8) -> ContentBox {
    choose|b: ContentBox| is_content_box(r, threshold, b)
}

/// The raster cut down to its content box.
pub open spec fn trimmed(r: Raster, threshold: u8) -> Raster {
    let b = content_box(r, threshold);
    cropped(r, b.left, b.top, (b.right - b.left + 1) as nat, (b.bottom - b.top + 1) as nat)
}

/// What trimming the borders of a raster gives: the raster cut down to its
/// content box, or a failure where every pixel is black.
pub open spec fn trim_outcome(r: Raster, threshold: u8) -> Result<Raster, EngineError> {
    if has_content(r, threshold) {
        Ok(trimmed(r, threshold))
    } else {
        Err(EngineError::AllBlackImage)
    }
}

/// What cutting a raster down to four scanned edges gives. A missing edge,
/// or edges that cross, mean that the scans found nothing but black. Edges
/// outside the raster are refused.
pub open spec fn edges_outcome(
    r: Raster,
    top: Option<u32>,
    left: Option<u32>,
    bottom: Option<u32>,
    right: Option<u32>,
) -> Result<Raster, EngineError> {
    if top.is_none() || left.is_none() || bottom.is_none() || right.is_none() {
        Err(EngineError::AllBlackImage)
    } else if right.unwrap() < left.unwrap() || bottom.unwrap() < top.unwrap() {
        Err(EngineError::AllBlackImage)
    } else if right.unwrap() >= r.width || bottom.unwrap() >= r.height {
        Err(EngineError::InvalidParameter)
    } else {
        Ok(
            cropped(
                r,
                left.unwrap() as int,
                top.unwrap() as int,
                (right.unwrap() - left.unwrap() + 1) as nat,
                (bottom.unwrap() - top.unwrap() + 1) as nat,
            ),
        )
    }
}

/// Below a row with content there is a first row with content.
pub proof fn lemma_top_edge_exists(r: Raster, threshold: u8, y: int)
    requires
        0 <= y < r.height,
        row_has_content(r, threshold, y),
    ensures
        exists|e: int| is_top_edge(r, threshold, e),
    decreases y,
{
    if exists|b: int| 0 <= b < y && row_has_content(r, threshold, b) {
        let b = choose|b: int| 0 <= b < y && row_has_content(r, threshold, b);
        lemma_top_edge_exists(r, threshold, b);
    } else {
        assert(is_top_edge(r, threshold, y));
    }
}

/// Above a row with content there is a last row with content.
pub proof fn lemma_bottom_edge_exists(r: Raster, threshold: u8, y: int)
    requires
        0 <= y < r.height,
        row_has_content(r, threshold, y),
    ensures
        exists|e: int| is_bottom_edge(r, threshold, e),
    decreases r.height - y,
{
    if exists|b: int| y < b < r.height && row_has_content(r, threshold, b) {
        let b = choose|b: int| y < b < r.height && row_has_content(r, threshold, b);
        lemma_bottom_edge_exists(r, threshold, b);
    } else {
        assert(is_bottom_edge(r, threshold, y));
    }
}

/// Left of a column with content there is a first column with content.
pub proof fn lemma_left_edge_exists(r: Raster, threshold: u8, x: int)
    requires
        0 <= x < r.width,
        column_has_content(r, threshold, x),
    ensures
        exists|e: int| is_left_edge(r, threshold, e),
    decreases x,
{
    if exists|a: int| 0 <= a < x && column_has_content(r, threshold, a) {
        let a = choose|a: int| 0 <= a < x && column_has_content(r, threshold, a);
        lemma_left_edge_exists(r, threshold, a);
    } else {
        assert(is_left_edge(r, threshold, x));
    }
}

/// Right of a column with content there is a last column with content.
pub proof fn lemma_right_edge_exists(r: Raster, threshold: u8, x: int)
    requires
        0 <= x < r.width,
        column_has_content(r, threshold, x),
    ensures
        exists|e: int| is_right_edge(r, threshold, e),
    decreases r.width - x,
{
    if exists|a: int| x < a < r.width && column_has_content(r, threshold, a) {
        let a = choose|a: int| x < a < r.width && column_has_content(r, threshold, a);
        lemma_right_edge_exists(r, threshold, a);
    } else {
        assert(is_right_edge(r, threshold, x));
    }
}

/// A raster with content has a content box, and `content_box` is it.
pub proof fn lemma_content_box_exists(r: Raster, threshold: u8)
    requires
        r.wf(),
        has_content(r, threshold),
    ensures
        is_content_box(r, threshold, content_box(r, threshold)),
{
    let (x, y) = choose|x: int, y: int| has_content_at(r, threshold, x, y);
    assert(has_content_at(r, threshold, x, y));
    assert(row_has_content(r, threshold, y));
    assert(column_has_content(r, threshold, x));
    lemma_top_edge_exists(r, threshold, y);
    lemma_bottom_edge_exists(r, threshold, y);
    lemma_left_edge_exists(r, threshold, x);
    lemma_right_edge_exists(r, threshold, x);
    let b = ContentBox {
        left: choose|e: int| is_left_edge(r, threshold, e),
        top: choose|e: int| is_top_edge(r, threshold, e),
        right: choose|e: int| is_right_edge(r, threshold, e),
        bottom: choose|e: int| is_bottom_edge(r, threshold, e),
    };
    assert(is_content_box(r, threshold, b));
}

/// A raster has at most one content box.
pub proof fn lemma_content_box_unique(r: Raster, threshold: u8, a: ContentBox, b: ContentBox)
    requires
        is_content_box(r, threshold, a),
        is_content_box(r, threshold, b),
    ensures
        a == b,
{
    if a.left < b.left {
        assert(!column_has_content(r, threshold, a.left));
    }
    if b.left < a.left {
        assert(!column_has_content(r, threshold, b.left));
    }
    if a.top < b.top {
        assert(!row_has_content(r, threshold, a.top));
    }
    if b.top < a.top {
        assert(!row_has_content(r, threshold, b.top));
    }
    if a.right < b.right {
        assert(!column_has_content(r, threshold, b.right));
    }
    if b.right < a.right {
        assert(!column_has_content(r, threshold, a.right));
    }
    if a.bottom < b.bottom {
        assert(!row_has_content(r, threshold, b.bottom));
    }
    if b.bottom < a.bottom {
        assert(!row_has_content(r, threshold, a.bottom));
    }
}

/// The content box lies inside the raster, its sides do not cross, and
/// every pixel that is not black lies inside it.
pub proof fn lemma_content_box_encloses(r: Raster, threshold: u8, b: ContentBox)
    requires
        is_content_box(r, threshold, b),
    ensures
        0 <= b.left <= b.right < r.width,
        0 <= b.top <= b.bottom < r.height,
        has_content(r, threshold),
        forall|x: int, y: int|
            has_content_at(r, threshold, x, y) ==> b.left <= x <= b.right && b.top <= y
                <= b.bottom,
{
    assert forall|x: int, y: int| has_content_at(r, threshold, x, y) implies b.left <= x
        <= b.right && b.top <= y <= b.bottom by {
        assert(column_has_content(r, threshold, x));
        assert(row_has_content(r, threshold, y));
    }
    let x0 = choose|x: int| has_content_at(r, threshold, x, b.top);
    assert(has_content_at(r, threshold, x0, b.top));
}

/// A raster whose only pixel that is not black is `(px, py)` is trimmed to
/// that one pixel.
pub proof fn lemma_single_pixel_trim(r: Raster, threshold: u8, px: int, py: int)
    requires
        r.wf(),
        has_content_at(r, threshold, px, py),
        forall|x: int, y: int| has_content_at(r, threshold, x, y) ==> x == px && y == py,
    ensures
        trim_outcome(r, threshold) == Ok::<Raster, EngineError>(cropped(r, px, py, 1, 1)),
        cropped(r, px, py, 1, 1).width == 1,
        cropped(r, px, py, 1, 1).height == 1,
        cropped(r, px, py, 1, 1).at(0, 0) == r.at(px, py),
{
    let b = ContentBox { left: px, top: py, right: px, bottom: py };
    assert(column_has_content(r, threshold, px));
    assert(row_has_content(r, threshold, py));
    assert(is_content_box(r, threshold, b));
    lemma_content_box_unique(r, threshold, b, content_box(r, threshold));
    lemma_cropped(r, px, py, 1, 1);
}

impl Processing {
    /// Whether no sample of the pixel is brighter than the threshold.
    pub fn is_a_shade_of_black(pixel: Color, threshold: u8) -> (dark: bool)
        ensures
            dark == is_black(pixel, threshold),
    {
        pixel.0 <= threshold && pixel.1 <= threshold && pixel.2 <= threshold
    }

    /// Scans the rows from the top for the first one that holds a pixel that
    /// is not black.
    pub fn find_top_edge(image: &PixelBuffer, threshold: u8) -> (edge: Option<u32>)
        ensures
            image@.wf(),
            match edge {
                Some(e) => is_top_edge(image@, threshold, e as int),
                None => !has_content(image@, threshold),
            },
    {
        let (width, height) = image.dimensions();
        let mut y: u32 = 0;
        while y < height
            invariant
                y <= height,
                image@.wf(),
                image@.width == width,
                image@.height == height,
                forall|b: int| 0 <= b < y ==> !row_has_content(image@, threshold, b),
            decreases height - y,
        {
            let mut x: u32 = 0;
            while x < width
                invariant
                    y < height,
                    x <= width,
                    image@.wf(),
                image@.width == width,
                    image@.height == height,
                    forall|b: int| 0 <= b < y ==> !row_has_content(image@, threshold, b),
                    forall|a: int| 0 <= a < x ==> !has_content_at(image@, threshold, a, y as int),
                decreases width - x,
            {
                if !Self::is_a_shade_of_black(image.pixel(x, y), threshold) {
                    assert(has_content_at(image@, threshold, x as int, y as int));
                    return Some(y);
                }
                x = x + 1;
            }
            y = y + 1;
        }
        assert(!has_content(image@, threshold)) by {
            assert forall|a: int, b: int| !has_content_at(image@, threshold, a, b) by {
                if image@.contains(a, b) {
                    assert(!row_has_content(image@, threshold, b));
                }
            }
        }
        None
    }

    /// Scans the columns from the left for the first one that holds a pixel
    /// that is not black.
    pub fn find_left_edge(image: &PixelBuffer, threshold: u8) -> (edge: Option<u32>)
        ensures
            image@.wf(),
            match edge {
                Some(e) => is_left_edge(image@, threshold, e as int),
                None => !has_content(image@, threshold),
            },
    {
        let (width, height) = image.dimensions();
        let mut x: u32 = 0;
        while x < width
            invariant
                x <= width,
                image@.wf(),
                image@.width == width,
                image@.height == height,
                forall|a: int| 0 <= a < x ==> !column_has_content(image@, threshold, a),
            decreases width - x,
        {
            let mut y: u32 = 0;
            while y < height
                invariant
                    x < width,
                    y <= height,
                    image@.wf(),
                image@.width == width,
                    image@.height == height,
                    forall|a: int| 0 <= a < x ==> !column_has_content(image@, threshold, a),
                    forall|b: int| 0 <= b < y ==> !has_content_at(image@, threshold, x as int, b),
                decreases height - y,
            {
                if !Self::is_a_shade_of_black(image.pixel(x, y), threshold) {
                    assert(has_content_at(image@, threshold, x as int, y as int));
                    return Some(x);
                }
                y = y + 1;
            }
            x = x + 1;
        }
        assert(!has_content(image@, threshold)) by {
            assert forall|a: int, b: int| !has_content_at(image@, threshold, a, b) by {
                if image@.contains(a, b) {
                    assert(!column_has_content(image@, threshold, a));
                }
            }
        }
        None
    }

    /// Scans the rows from the bottom for the first one that holds a pixel
    /// that is not black.
    pub fn find_bottom_edge(image: &PixelBuffer, threshold: u8) -> (edge: Option<u32>)
        ensures
            image@.wf(),
            match edge {
                Some(e) => is_bottom_edge(image@, threshold, e as int),
                None => !has_content(image@, threshold),
            },
    {
        let (width, height) = image.dimensions();
        let mut y: u32 = height;
        while y > 0
            invariant
                y <= height,
                image@.wf(),
                image@.width == width,
                image@.height == height,
                forall|b: int| y <= b < height ==> !row_has_content(image@, threshold, b),
            decreases y,
        {
            y = y - 1;
            let mut x: u32 = width;
            while x > 0
                invariant
                    y < height,
                    x <= width,
                    image@.wf(),
                image@.width == width,
                    image@.height == height,
                    forall|b: int| y < b < height ==> !row_has_content(image@, threshold, b),
                    forall|a: int|
                        x <= a < width ==> !has_content_at(image@, threshold, a, y as int),
                decreases x,
            {
                x = x - 1;
                if !Self::is_a_shade_of_black(image.pixel(x, y), threshold) {
                    assert(has_content_at(image@, threshold, x as int, y as int));
                    return Some(y);
                }
            }
        }
        assert(!has_content(image@, threshold)) by {
            assert forall|a: int, b: int| !has_content_at(image@, threshold, a, b) by {
                if image@.contains(a, b) {
                    assert(!row_has_content(image@, threshold, b));
                }
            }
        }
        None
    }

    /// Scans the columns from the right for the first one that holds a pixel
    /// that is not black.
    pub fn find_right_edge(image: &PixelBuffer, threshold: u8) -> (edge: Option<u32>)
        ensures
            image@.wf(),
            match edge {
                Some(e) => is_right_edge(image@, threshold, e as int),
                None => !has_content(image@, threshold),
            },
    {
        let (width, height) = image.dimensions();
        let mut x: u32 = width;
        while x > 0
            invariant
                x <= width,
                image@.wf(),
                image@.width == width,
                image@.height == height,
                forall|a: int| x <= a < width ==> !column_has_content(image@, threshold, a),
            decreases x,
        {
            x = x - 1;
            let mut y: u32 = height;
            while y > 0
                invariant
                    x < width,
                    y <= height,
                    image@.wf(),
                image@.width == width,
                    image@.height == height,
                    forall|a: int| x < a < width ==> !column_has_content(image@, threshold, a),
                    forall|b: int|
                        y <= b < height ==> !has_content_at(image@, threshold, x as int, b),
                decreases y,
            {
                y = y - 1;
                if !Self::is_a_shade_of_black(image.pixel(x, y), threshold) {
                    assert(has_content_at(image@, threshold, x as int, y as int));
                    return Some(x);
                }
            }
        }
        assert(!has_content(image@, threshold)) by {
            assert forall|a: int, b: int| !has_content_at(image@, threshold, a, b) by {
                if image@.contains(a, b) {
                    assert(!column_has_content(image@, threshold, a));
                }
            }
        }
        None
    }

    /// Cuts the image down to the edges that the four scans found.
    pub fn crop_to_edges(
        image: &PixelBuffer,
        top: Option<u32>,
        left: Option<u32>,
        bottom: Option<u32>,
        right: Option<u32>,
    ) -> (res: Result<PixelBuffer, EngineError>)
        ensures
            outcome_view(res) == edges_outcome(image@, top, left, bottom, right),
            res.is_ok() ==> res.unwrap()@.wf(),
    {
        let (width, height) = image.dimensions();
        match (top, left, bottom, right) {
            (Some(t), Some(l), Some(b), Some(r)) => {
                if r < l || b < t {
                    Err(EngineError::AllBlackImage)
                } else if r >= width || b >= height {
                    Err(EngineError::InvalidParameter)
                } else {
                    let crop_width: u32 = r - l + 1;
                    let crop_height: u32 = b - t + 1;
                    assert(3 * crop_width * crop_height <= 3 * width * height) by (nonlinear_arith)
                        requires
                            0 <= crop_width <= width,
                            0 <= crop_height <= height,
                    ;
                    Ok(Self::crop_image(image, l, t, crop_width, crop_height))
                }
            },
            _ => Err(EngineError::AllBlackImage),
        }
    }

    /// Cuts the image down to the smallest rectangle that holds every pixel
    /// with a sample brighter than `threshold`. An image without such a
    /// pixel is refused.
    pub fn remove_borders_with_threshold(image: &PixelBuffer, threshold: u8) -> (res: Result<
        PixelBuffer,
        EngineError,
    >)
        ensures
            outcome_view(res) == trim_outcome(image@, threshold),
            res.is_ok() ==> res.unwrap()@.wf(),
    {
        let top = Self::find_top_edge(image, threshold);
        let left = Self::find_left_edge(image, threshold);
        let bottom = Self::find_bottom_edge(image, threshold);
        let right = Self::find_right_edge(image, threshold);
        proof {
            if top.is_some() && left.is_some() && bottom.is_some() && right.is_some() {
                let b = ContentBox {
                    left: left.unwrap() as int,
                    top: top.unwrap() as int,
                    right: right.unwrap() as int,
                    bottom: bottom.unwrap() as int,
                };
                assert(is_content_box(image@, threshold, b));
                lemma_content_box_encloses(image@, threshold, b);
                lemma_content_box_unique(image@, threshold, b, content_box(image@, threshold));
            }
        }
        Self::crop_to_edges(image, top, left, bottom, right)
    }

    /// Cuts the image down to its content, with the default threshold.
    pub fn remove_borders(image: &PixelBuffer) -> (res: Result<PixelBuffer, EngineError>)
        ensures
            outcome_view(res) == trim_outcome(image@, DEFAULT_THRESHOLD),
            res.is_ok() ==> res.unwrap()@.wf(),
    {
        Self::remove_borders_with_threshold(image, DEFAULT_THRESHOLD)
    }
}

} // verus!
