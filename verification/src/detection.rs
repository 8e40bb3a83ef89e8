//! The detection contract: which detections of the model the engine keeps,
//! and how their boxes are drawn.
//!
//! The model reports confidences and box coordinates as 32-bit floating
//! point numbers. The engine carries each of them as its IEEE 754 bit
//! pattern. For numbers that are not negative, the order of the bit patterns
//! is the order of the numbers.

use vstd::prelude::*;
use crate::buffer::outlined;
use crate::buffer::resized;
use crate::buffer::DRAW_LIMIT;
use crate::buffer::DRAW_REACH;
use crate::buffer::PixelBuffer;
use crate::buffer::RESAMPLE_LIMIT;
use crate::raster::lemma_index_of;
use crate::raster::on_outline;
use crate::raster::outline_over;
use crate::raster::Color;
use crate::raster::Raster;

verus! {

/// The bit pattern of 0.95, the confidence that a detection has to exceed.
pub const CONFIDENCE_CUTOFF: u32 = 0x3F73_3333;

/// The bit pattern of positive infinity. The patterns above it are no
/// numbers, or are negative.
pub const POSITIVE_INFINITY: u32 = 0x7F80_0000;

/// The colour in which boxes are drawn.
pub const BOX_COLOR: Color = (255, 0, 255);

/// The divisor by which an image is scaled down before boxes are drawn.
pub const PREVIEW_DIVISOR: u32 = 4;

/// One face found by the model: the corners of its box, normalised to the
/// image, as `[x0, y0, x1, y1]`, and the confidence of the model. All five
/// are bit patterns of 32-bit floating point numbers.
#[derive(Clone, Copy, Debug, PartialEq, Eq)]
pub struct Detection {
    pub bbox: [u32; 4],
    pub confidence: u32,
}

/// Whether the number with this bit pattern is greater than 0.95.
pub open spec fn is_confident(confidence: u32) -> bool {
    CONFIDENCE_CUTOFF < confidence <= POSITIVE_INFINITY
}

/// The detections that the engine keeps, in the order of the model.
pub open spec fn confident_only(raw: Seq<Detection>) -> Seq<Detection> {
    raw.filter(|d: Detection| is_confident(d.confidence))
}

/// Every detection that is kept is confident, every confident detection is
/// kept, and none is added.
pub proof fn lemma_confident_only(raw: Seq<Detection>)
    ensures
        confident_only(raw).len() <= raw.len(),
        forall|i: int|
            0 <= i < confident_only(raw).len() ==> is_confident(
                (#[trigger] confident_only(raw)[i]).confidence,
            ) && raw.contains(confident_only(raw)[i]),
        forall|i: int|
            0 <= i < raw.len() && is_confident(raw[i].confidence) ==> confident_only(raw).contains(
                #[trigger] raw[i],
            ),
{
    let pred = |d: Detection| is_confident(d.confidence);
    raw.lemma_filter_len(pred);
    assert forall|i: int| 0 <= i < confident_only(raw).len() implies is_confident(
        (#[trigger] confident_only(raw)[i]).confidence,
    ) && raw.contains(confident_only(raw)[i]) by {
        raw.lemma_filter_pred(pred, i);
        raw.lemma_filter_contains_rev(pred, confident_only(raw)[i]);
    }
    assert forall|i: int| 0 <= i < raw.len() && is_confident(raw[i].confidence) implies confident_only(
        raw,
    ).contains(#[trigger] raw[i]) by {
        raw.lemma_filter_contains(pred, i);
    }
}

/// A box on a target image, in pixels: the columns and rows of its top left
/// corner and of the corner past its bottom right.
#[derive(Clone, Copy, Debug, PartialEq, Eq, Structural)]
pub struct PixelBox {
    pub left: i64,
    pub top: i64,
    pub right: i64,
    pub bottom: i64,
}

/// A rectangle that is not empty, by its top left corner and its size.
#[derive(Clone, Copy, Debug, PartialEq, Eq, Structural)]
pub struct Outline {
    pub left: u32,
    pub top: u32,
    pub width: u32,
    pub height: u32,
}

/// `v`, or the nearest of `0` and `limit` where it lies outside them.
pub open spec fn clamped(v: int, limit: int) -> int {
    if v < 0 {
        0
    } else if v > limit {
        limit
    } else {
        v
    }
}

/// The side up to which a box is drawn on a target of the given extent:
/// all of it, but for what lies past `DRAW_REACH`.
pub open spec fn draw_extent(extent: nat) -> int {
    if extent <= DRAW_REACH {
        extent as int
    } else {
        DRAW_REACH as int
    }
}

/// The part of a box that lies on a target of the given size, or `None`
/// where nothing of it does.
pub open spec fn clamped_outline(b: PixelBox, width: nat, height: nat) -> Option<Outline> {
    let left = clamped(b.left as int, draw_extent(width));
    let right = clamped(b.right as int, draw_extent(width));
    let top = clamped(b.top as int, draw_extent(height));
    let bottom = clamped(b.bottom as int, draw_extent(height));
    if left < right && top < bottom {
        Some(
            Outline {
                left: left as u32,
                top: top as u32,
                width: (right - left) as u32,
                height: (bottom - top) as u32,
            },
        )
    } else {
        None
    }
}

/// Whether outlines on a target of this size are exact: it has at most
/// `DRAW_LIMIT` columns and rows.
pub open spec fn is_exact(frame: Raster) -> bool {
    frame.width <= DRAW_LIMIT && frame.height <= DRAW_LIMIT
}

/// The pixels of a target with one outline drawn on it. On a target of at
/// most `DRAW_LIMIT` columns and rows these are the first and last row and
/// column of the outline in the colour, and the target elsewhere. On a
/// larger target they are what the drawing routine makes of the outline.
pub open spec fn outline_pixels(frame: Raster, o: Outline, color: Color) -> Seq<Color> {
    if is_exact(frame) {
        outline_over(frame.pixels, frame.width, o.left, o.top, o.width, o.height, color)
    } else {
        outlined(frame.width, frame.height, frame.pixels, o.left, o.top, o.width, o.height, color)
    }
}

/// The target with the outline of one box drawn on it. A box of which
/// nothing lies on the target leaves it as it is.
pub open spec fn with_box(frame: Raster, b: PixelBox) -> Raster {
    match clamped_outline(b, frame.width, frame.height) {
        Some(o) => Raster { pixels: outline_pixels(frame, o, BOX_COLOR), ..frame },
        None => frame,
    }
}

/// The target with the outlines of the first `n` boxes drawn on it, one
/// after the other.
pub open spec fn with_boxes(frame: Raster, boxes: Seq<PixelBox>, n: int) -> Raster
    decreases n,
{
    if n <= 0 {
        frame
    } else {
        with_box(with_boxes(frame, boxes, n - 1), boxes[n - 1])
    }
}

/// The target with the outlines of all boxes drawn on it.
pub open spec fn boxes_drawn(frame: Raster, boxes: Seq<PixelBox>) -> Raster {
    with_boxes(frame, boxes, boxes.len() as int)
}

/// Drawing one box keeps the size of the target. On a target of at most
/// `DRAW_LIMIT` columns and rows it paints the outline of the part of the
/// box that lies on the target and leaves every other pixel as it is.
pub proof fn lemma_with_box(frame: Raster, b: PixelBox)
    requires
        frame.wf(),
    ensures
        with_box(frame, b).width == frame.width,
        with_box(frame, b).height == frame.height,
        is_exact(frame) ==> with_box(frame, b).wf(),
        is_exact(frame) ==> forall|x: int, y: int|
            #![trigger with_box(frame, b).at(x, y)]
            frame.contains(x, y) ==> with_box(frame, b).at(x, y) == match clamped_outline(
                b,
                frame.width,
                frame.height,
            ) {
                Some(o) => if on_outline(
                    x,
                    y,
                    o.left as int,
                    o.top as int,
                    o.width as int,
                    o.height as int,
                ) {
                    BOX_COLOR
                } else {
                    frame.at(x, y)
                },
                None => frame.at(x, y),
            },
{
    if is_exact(frame) {
        assert forall|x: int, y: int| frame.contains(x, y) implies with_box(frame, b).at(x, y)
            == match clamped_outline(b, frame.width, frame.height) {
            Some(o) => if on_outline(
                x,
                y,
                o.left as int,
                o.top as int,
                o.width as int,
                o.height as int,
            ) {
                BOX_COLOR
            } else {
                frame.at(x, y)
            },
            None => frame.at(x, y),
        } by {
            lemma_index_of(frame, x, y);
        }
    }
}

/// Drawing boxes keeps the size of the target, and without boxes the target
/// stays as it is.
pub proof fn lemma_with_boxes_size(frame: Raster, boxes: Seq<PixelBox>, n: int)
    ensures
        with_boxes(frame, boxes, n).width == frame.width,
        with_boxes(frame, boxes, n).height == frame.height,
        n <= 0 ==> with_boxes(frame, boxes, n) == frame,
    decreases n,
{
    if n > 0 {
        lemma_with_boxes_size(frame, boxes, n - 1);
    }
}

/// A clamped outline is not empty, lies on the target and does not reach
/// past `DRAW_REACH`.
pub proof fn lemma_clamped_outline(b: PixelBox, width: nat, height: nat)
    ensures
        match clamped_outline(b, width, height) {
            Some(o) => o.width > 0 && o.height > 0 && o.left + o.width <= width && o.top
                + o.height <= height && o.left + o.width <= DRAW_REACH && o.top + o.height
                <= DRAW_REACH,
            None => true,
        },
{
}


/// The engine's side of face detection. The model itself runs outside; the
/// engine decides which of its detections count.
pub struct NeuralInferrer {}

impl NeuralInferrer {
    pub fn new() -> (inferrer: Self) {
        NeuralInferrer {  }
    }

    /// Whether a confidence exceeds the cutoff of 0.95.
    pub fn accepts(confidence: u32) -> (keep: bool)
        ensures
            keep == is_confident(confidence),
    {
        CONFIDENCE_CUTOFF < confidence && confidence <= POSITIVE_INFINITY
    }

    /// Keeps the detections of the model whose confidence exceeds 0.95, in
    /// their order.
    pub fn infer_face(&self, raw: &Vec<Detection>) -> (kept: Vec<Detection>)
        ensures
            kept@ == confident_only(raw@),
    {
        let ghost pred = |d: Detection| is_confident(d.confidence);
        let mut kept: Vec<Detection> = Vec::new();
        let mut i: usize = 0;
        assert(raw@.take(0).filter(pred) =~= Seq::<Detection>::empty()) by {
            reveal(Seq::filter);
        }
        while i < raw.len()
            invariant
                i <= raw.len(),
                pred == |d: Detection| is_confident(d.confidence),
                kept@ == raw@.take(i as int).filter(pred),
            decreases raw.len() - i,
        {
            let d = raw[i];
            proof {
                reveal(Seq::filter);
                assert(raw@.take(i + 1).drop_last() =~= raw@.take(i as int));
            }
            if Self::accepts(d.confidence) {
                kept.push(d);
            }
            i = i + 1;
        }
        assert(raw@.take(raw.len() as int) =~= raw@);
        kept
    }
}

/// `v` clamped to `[0, limit]`.
pub fn clamp_coordinate(v: i64, limit: u32) -> (c: u32)
    ensures
        c == clamped(v as int, limit as int),
{
    if v < 0 {
        0
    } else if v > limit as i64 {
        limit
    } else {
        v as u32
    }
}

/// The part of a box that lies on a target of the given size.
pub fn clamp_box(b: PixelBox, width: u32, height: u32) -> (o: Option<Outline>)
    ensures
        o == clamped_outline(b, width as nat, height as nat),
{
    let max_x: u32 = if width <= DRAW_REACH {
        width
    } else {
        DRAW_REACH
    };
    let max_y: u32 = if height <= DRAW_REACH {
        height
    } else {
        DRAW_REACH
    };
    let left = clamp_coordinate(b.left, max_x);
    let right = clamp_coordinate(b.right, max_x);
    let top = clamp_coordinate(b.top, max_y);
    let bottom = clamp_coordinate(b.bottom, max_y);
    if left < right && top < bottom {
        Some(Outline { left, top, width: right - left, height: bottom - top })
    } else {
        None
    }
}

/// Draws the outline of every box on the frame, one after the other. A box
/// is first cut down to the frame; one of which nothing lies on the frame is
/// skipped.
pub fn draw_bboxes_on_image(frame: PixelBuffer, boxes: &Vec<PixelBox>) -> (out: PixelBuffer)
    ensures
        out@ == boxes_drawn(frame@, boxes@),
        out@.wf(),
{
    let (width, height) = frame.dimensions();
    let ghost start = frame@;
    let mut frame = frame;
    let mut i: usize = 0;
    while i < boxes.len()
        invariant
            i <= boxes.len(),
            frame@.wf(),
            frame@.width == width,
            frame@.height == height,
            frame@ == with_boxes(start, boxes@, i as int),
        decreases boxes.len() - i,
    {
        proof {
            lemma_clamped_outline(boxes@[i as int], width as nat, height as nat);
        }
        match clamp_box(boxes[i], width, height) {
            Some(o) => {
                let drawn = frame.raw_outline(o.left, o.top, o.width, o.height, BOX_COLOR);
                let _ = drawn.dimensions();
                frame = drawn;
            },
            None => {},
        }
        i = i + 1;
    }
    frame
}

/// The size of the preview of an image of the given size.
pub open spec fn preview_size(extent: nat) -> nat {
    extent / PREVIEW_DIVISOR as nat
}

/// Whether an image of this size has a preview: it has at most
/// `RESAMPLE_LIMIT` columns and rows, up to where the resampling routine
/// cannot panic, and the resampling fits in one allocation.
pub open spec fn has_preview(r: Raster) -> bool {
    &&& r.width <= RESAMPLE_LIMIT
    &&& r.height <= RESAMPLE_LIMIT
    &&& 16 * r.width * preview_size(r.height) <= isize::MAX
}

/// A copy of the image scaled down to a quarter of its width and height,
/// on which boxes are drawn; `None` for an image that has no preview.
pub fn preview(buf: &PixelBuffer) -> (out: Option<PixelBuffer>)
    ensures
        out.is_some() <==> has_preview(buf@),
        out.is_some() ==> out.unwrap()@ == (Raster {
            width: preview_size(buf@.width),
            height: preview_size(buf@.height),
            pixels: resized(
                buf@.width,
                buf@.height,
                buf@.pixels,
                preview_size(buf@.width) as u32,
                preview_size(buf@.height) as u32,
            ),
        }),
        out.is_some() ==> out.unwrap()@.wf(),
{
    let (width, height) = buf.dimensions();
    if width > RESAMPLE_LIMIT || height > RESAMPLE_LIMIT {
        return None;
    }
    let new_width: u32 = width / PREVIEW_DIVISOR;
    let new_height: u32 = height / PREVIEW_DIVISOR;
    let w: u64 = width as u64;
    let h: u64 = new_height as u64;
    assert(w * h <= 0x0100_0000 * 0x0100_0000) by (nonlinear_arith)
        requires
            0 <= w <= 0x0100_0000,
            0 <= h <= 0x0100_0000,
    ;
    let needed: u64 = 16 * (w * h);
    assert(needed == 16 * width * new_height) by (nonlinear_arith)
        requires
            needed == 16 * (w * h),
            w == width,
            h == new_height,
    ;
    if needed <= isize::MAX as u64 {
        let out = buf.raw_resize(new_width, new_height);
        let _ = out.dimensions();
        Some(out)
    } else {
        None
    }
}

} // verus!
