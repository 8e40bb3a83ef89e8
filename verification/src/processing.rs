//! The geometry engine: the transforms that act on every pixel alike.
//! `Processing` also owns the displacement, the forward mapping and the
//! border scan, which have modules of their own.

use vstd::prelude::*;
use crate::buffer::PixelBuffer;
use crate::error::EngineError;
use crate::raster::black;
use crate::raster::Color;
use crate::raster::lemma_build;
use crate::raster::lemma_index_of;
use crate::raster::lemma_raster_ext;
use crate::raster::Raster;

verus! {

/// Whether `(i, j)` comes before `(x, y)` when a raster is walked row after
/// row from the top, each row from the left.
pub open spec fn walked_before(i: int, j: int, x: int, y: int) -> bool {
    j < y || (j == y && i < x)
}

/// The mathematical content of the result of an operation that may fail.
pub open spec fn outcome_view(res: Result<PixelBuffer, EngineError>) -> Result<Raster, EngineError> {
    match res {
        Ok(buf) => Ok(buf@),
        Err(e) => Err(e),
    }
}

/// The colour with every sample `c` replaced by `255 - c`.
pub open spec fn inverted_color(c: Color) -> Color {
    ((255 - c.0) as u8, (255 - c.1) as u8, (255 - c.2) as u8)
}

/// The raster with every pixel inverted.
pub open spec fn inverted(r: Raster) -> Raster {
    Raster { pixels: r.pixels.map_values(|c: Color| inverted_color(c)), ..r }
}

/// Inverting twice gives the raster back.
pub proof fn lemma_invert_involution(r: Raster)
    ensures
        inverted(inverted(r)) == r,
{
    assert(inverted(inverted(r)).pixels =~= r.pixels);
}

/// Inverting keeps the size and the well-formedness of a raster.
pub proof fn lemma_invert_shape(r: Raster)
    ensures
        inverted(r).width == r.width,
        inverted(r).height == r.height,
        r.wf() ==> inverted(r).wf(),
{
}

/// The `width` x `height` window of `r` whose top left corner is `(x, y)`.
/// Where the window leaves `r`, it is black.
pub open spec fn cropped(r: Raster, x: int, y: int, width: nat, height: nat) -> Raster {
    Raster::build(
        width,
        height,
        |i: int, j: int| if r.contains(x + i, y + j) { r.at(x + i, y + j) } else { black() },
    )
}

/// A crop has the requested size, shows the source where the window lies
/// inside it and is black elsewhere.
pub proof fn lemma_cropped(r: Raster, x: int, y: int, width: nat, height: nat)
    ensures
        cropped(r, x, y, width, height).wf(),
        cropped(r, x, y, width, height).width == width,
        cropped(r, x, y, width, height).height == height,
        forall|i: int, j: int|
            #![trigger cropped(r, x, y, width, height).at(i, j)]
            0 <= i < width && 0 <= j < height ==> cropped(r, x, y, width, height).at(i, j) == if r.contains(
                x + i,
                y + j,
            ) {
                r.at(x + i, y + j)
            } else {
                black()
            },
{
    lemma_build(
        width,
        height,
        |i: int, j: int| if r.contains(x + i, y + j) { r.at(x + i, y + j) } else { black() },
    );
}

/// A window that lies inside a raster is of a size that a buffer can
/// have, so every valid rectangle of a buffer can be cropped.
pub proof fn lemma_window_fits(r: Raster, x: int, y: int, width: nat, height: nat)
    requires
        PixelBuffer::fits(r.width, r.height),
        0 <= x,
        0 <= y,
        x + width <= r.width,
        y + height <= r.height,
    ensures
        PixelBuffer::fits(width, height),
{
    assert(3 * width * height <= 3 * r.width * r.height) by (nonlinear_arith)
        requires
            width <= r.width,
            height <= r.height,
    ;
    assert(3 * width <= 3 * r.width);
}

pub struct Processing {}

impl Processing {
    /// Replaces every sample `c` of every pixel with `255 - c`, in place.
    pub fn negative_basic(buf: &mut PixelBuffer)
        ensures
            final(buf)@ == inverted(old(buf)@),
            final(buf)@.wf(),
    {
        let (w, h) = buf.dimensions();
        let ghost before = buf@;
        let mut y: u32 = 0;
        while y < h
            invariant
                y <= h,
                before.wf(),
                before.width == w,
                before.height == h,
                buf@.wf(),
                buf@.width == w,
                buf@.height == h,
                forall|i: int, j: int|
                    before.contains(i, j) ==> #[trigger] buf@.at(i, j) == if j < y {
                        inverted_color(before.at(i, j))
                    } else {
                        before.at(i, j)
                    },
            decreases h - y,
        {
            let mut x: u32 = 0;
            while x < w
                invariant
                    y < h,
                    x <= w,
                    before.wf(),
                    before.width == w,
                    before.height == h,
                    buf@.wf(),
                    buf@.width == w,
                    buf@.height == h,
                    forall|i: int, j: int|
                        before.contains(i, j) ==> #[trigger] buf@.at(i, j) == if walked_before(
                            i,
                            j,
                            x as int,
                            y as int,
                        ) {
                            inverted_color(before.at(i, j))
                        } else {
                            before.at(i, j)
                        },
                decreases w - x,
            {
                let ghost prev = buf@;
                let c = buf.pixel(x, y);
                buf.set_pixel(x, y, (255 - c.0, 255 - c.1, 255 - c.2));
                proof {
                    lemma_index_of(prev, x as int, y as int);
                    assert forall|i: int, j: int| before.contains(i, j) implies #[trigger] buf@.at(
                        i,
                        j,
                    ) == if walked_before(i, j, x + 1, y as int) {
                        inverted_color(before.at(i, j))
                    } else {
                        before.at(i, j)
                    } by {
                        lemma_index_of(prev, i, j);
                        assert(prev.at(i, j) == if walked_before(i, j, x as int, y as int) {
                            inverted_color(before.at(i, j))
                        } else {
                            before.at(i, j)
                        });
                    }
                }
                x = x + 1;
            }
            y = y + 1;
        }
        proof {
            lemma_invert_shape(before);
            assert forall|i: int, j: int| buf@.contains(i, j) implies buf@.at(i, j) == inverted(
                before,
            ).at(i, j) by {
                lemma_index_of(before, i, j);
            }
            lemma_raster_ext(buf@, inverted(before));
        }
    }

    /// The `width` x `height` window of `img` whose top left corner is
    /// `(x, y)`. The result always has the requested size; where the window
    /// leaves the image, the result is black. The requested size has to be
    /// one that a buffer can have, as that of every window inside the image
    /// is.
    pub fn crop_image(img: &PixelBuffer, x: u32, y: u32, width: u32, height: u32) -> (out:
        PixelBuffer)
        requires
            PixelBuffer::fits(width as nat, height as nat),
        ensures
            out@ == cropped(img@, x as int, y as int, width as nat, height as nat),
            out@.wf(),
    {
        let (src_w, src_h) = img.dimensions();
        let x_end: u64 = if x as u64 + width as u64 <= src_w as u64 {
            x as u64 + width as u64
        } else {
            src_w as u64
        };
        let y_end: u64 = if y as u64 + height as u64 <= src_h as u64 {
            y as u64 + height as u64
        } else {
            src_h as u64
        };
        let mut out = PixelBuffer::blank(width, height);
        let ghost want = cropped(img@, x as int, y as int, width as nat, height as nat);
        proof {
            lemma_cropped(img@, x as int, y as int, width as nat, height as nat);
            assert forall|i: int, j: int| out@.contains(i, j) implies #[trigger] out@.at(i, j)
                == black() by {
                lemma_index_of(out@, i, j);
            }
        }
        let mut j: u32 = 0;
        while j < height
            invariant
                j <= height,
                img@.wf(),
                img@.width == src_w,
                img@.height == src_h,
                x_end == if x + width <= src_w { x + width } else { src_w as int },
                y_end == if y + height <= src_h { y + height } else { src_h as int },
                out@.wf(),
                out@.width == width,
                out@.height == height,
                want == cropped(img@, x as int, y as int, width as nat, height as nat),
                forall|a: int, b: int|
                    out@.contains(a, b) ==> #[trigger] out@.at(a, b) == if b < j {
                        want.at(a, b)
                    } else {
                        black()
                    },
            decreases height - j,
        {
            let mut i: u32 = 0;
            while i < width
                invariant
                    j < height,
                    i <= width,
                    img@.wf(),
                    img@.width == src_w,
                    img@.height == src_h,
                    x_end == if x + width <= src_w { x + width } else { src_w as int },
                    y_end == if y + height <= src_h { y + height } else { src_h as int },
                    out@.wf(),
                    out@.width == width,
                    out@.height == height,
                    want == cropped(img@, x as int, y as int, width as nat, height as nat),
                    forall|a: int, b: int|
                        out@.contains(a, b) ==> #[trigger] out@.at(a, b) == if walked_before(
                            a,
                            b,
                            i as int,
                            j as int,
                        ) {
                            want.at(a, b)
                        } else {
                            black()
                        },
                decreases width - i,
            {
                let source_x: u64 = x as u64 + i as u64;
                let source_y: u64 = y as u64 + j as u64;
                let ghost prev = out@;
                proof {
                    lemma_cropped(img@, x as int, y as int, width as nat, height as nat);
                    lemma_index_of(prev, i as int, j as int);
                }
                if source_x < x_end && source_y < y_end {
                    let c = img.pixel(source_x as u32, source_y as u32);
                    out.set_pixel(i, j, c);
                }
                proof {
                    assert forall|a: int, b: int| out@.contains(a, b) implies #[trigger] out@.at(
                        a,
                        b,
                    ) == if walked_before(a, b, i + 1, j as int) {
                        want.at(a, b)
                    } else {
                        black()
                    } by {
                        lemma_index_of(prev, a, b);
                        assert(prev.at(a, b) == if walked_before(a, b, i as int, j as int) {
                            want.at(a, b)
                        } else {
                            black()
                        });
                    }
                }
                i = i + 1;
            }
            j = j + 1;
        }
        proof {
            lemma_cropped(img@, x as int, y as int, width as nat, height as nat);
            lemma_raster_ext(out@, want);
        }
        out
    }
}

} // verus!
