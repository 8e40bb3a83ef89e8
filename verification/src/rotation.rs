//! The forward mapping behind a rotation: every pixel of the source is
//! written to a target in the result. The caller computes the targets from
//! the angle. A target may lie outside the result, on either side, and then
//! its pixel is dropped; several pixels may share one target, so the result
//! may have holes.

use vstd::prelude::*;
use crate::buffer::PixelBuffer;
use crate::processing::Processing;
use crate::raster::black;
use crate::raster::Color;
use crate::raster::lemma_build;
use crate::raster::lemma_coordinate_of;
use crate::raster::lemma_index_of;
use crate::raster::lemma_raster_ext;
use crate::raster::Raster;

verus! {

/// The index of the last of the first `n` source pixels whose target is
/// `(x, y)`, or -1 where none of them lands there.
pub open spec fn last_landing(targets: Seq<(i64, i64)>, n: int, x: int, y: int) -> int
    decreases n,
{
    if n <= 0 {
        -1
    } else if n <= targets.len() && targets[n - 1].0 == x && targets[n - 1].1 == y {
        n - 1
    } else {
        last_landing(targets, n - 1, x, y)
    }
}

/// Whether source pixel `k` has a target, and it is `(x, y)`.
pub open spec fn lands_on(targets: Seq<(i64, i64)>, k: int, x: int, y: int) -> bool {
    0 <= k < targets.len() && targets[k].0 == x && targets[k].1 == y
}

/// `last_landing` is the greatest source index below `n` that lands on
/// `(x, y)`, and -1 exactly where there is none.
pub proof fn lemma_last_landing(targets: Seq<(i64, i64)>, n: int, x: int, y: int)
    ensures
        -1 <= last_landing(targets, n, x, y),
        last_landing(targets, n, x, y) >= 0 ==> last_landing(targets, n, x, y) < n && lands_on(
            targets,
            last_landing(targets, n, x, y),
            x,
            y,
        ),
        forall|m: int|
            last_landing(targets, n, x, y) < m < n ==> !#[trigger] lands_on(targets, m, x, y),
    decreases n,
{
    if n > 0 {
        lemma_last_landing(targets, n - 1, x, y);
    }
}

/// The value of one pixel of a forward mapping after the first `n` source
/// pixels were written: that of the last of them that landed there, or
/// black where none did.
pub open spec fn scattered_color(src: Raster, targets: Seq<(i64, i64)>, n: int, x: int, y: int) -> Color {
    let k = last_landing(targets, n, x, y);
    if k >= 0 {
        src.pixels[k]
    } else {
        black()
    }
}

/// The width of the image of `src` under a forward mapping.
pub open spec fn scattered_width(src: Raster, swap_axes: bool) -> nat {
    if swap_axes {
        src.height
    } else {
        src.width
    }
}

/// The height of the image of `src` under a forward mapping.
pub open spec fn scattered_height(src: Raster, swap_axes: bool) -> nat {
    if swap_axes {
        src.width
    } else {
        src.height
    }
}

/// The image of `src` under a forward mapping: an all-black raster of the
/// size of `src`, with width and height exchanged if `swap_axes`, in
/// which every source pixel was then written to its target, in the order of
/// the source pixels. A source pixel without a target, or with one outside
/// the result, is lost; a later one overwrites an earlier one.
pub open spec fn scattered(src: Raster, swap_axes: bool, targets: Seq<(i64, i64)>) -> Raster {
    Raster::build(
        scattered_width(src, swap_axes),
        scattered_height(src, swap_axes),
        |x: int, y: int| scattered_color(src, targets, src.pixels.len() as int, x, y),
    )
}

/// The image under a forward mapping is well-formed, and each of its pixels
/// is what `scattered_color` says after all source pixels were written.
pub proof fn lemma_scattered(src: Raster, swap_axes: bool, targets: Seq<(i64, i64)>)
    ensures
        scattered(src, swap_axes, targets).wf(),
        scattered(src, swap_axes, targets).width == scattered_width(src, swap_axes),
        scattered(src, swap_axes, targets).height == scattered_height(src, swap_axes),
        forall|x: int, y: int|
            #![trigger scattered(src, swap_axes, targets).at(x, y)]
            scattered(src, swap_axes, targets).contains(x, y) ==> scattered(
                src,
                swap_axes,
                targets,
            ).at(x, y) == scattered_color(src, targets, src.pixels.len() as int, x, y),
{
    lemma_build(
        scattered_width(src, swap_axes),
        scattered_height(src, swap_axes),
        |x: int, y: int| scattered_color(src, targets, src.pixels.len() as int, x, y),
    );
}

/// A forward mapping with exchanged axes, applied twice, gives a raster of
/// the width and height of the source.
pub proof fn lemma_quarter_turns_restore_size(
    src: Raster,
    first: Seq<(i64, i64)>,
    second: Seq<(i64, i64)>,
)
    ensures
        scattered(src, true, first).width == src.height,
        scattered(src, true, first).height == src.width,
        scattered(scattered(src, true, first), true, second).width == src.width,
        scattered(scattered(src, true, first), true, second).height == src.height,
{
}

/// Whether every source pixel of a `width` columns wide raster has its own
/// coordinate as its target.
pub open spec fn is_identity_mapping(targets: Seq<(i64, i64)>, width: nat) -> bool {
    forall|k: int|
        0 <= k < targets.len() ==> (#[trigger] targets[k]).0 == k % (width as int) && targets[k].1
            == k / (width as int)
}

/// A forward mapping that sends every pixel to its own coordinate, without
/// exchanging the axes, gives the source back.
pub proof fn lemma_identity_mapping(src: Raster, targets: Seq<(i64, i64)>)
    requires
        src.wf(),
        targets.len() == src.pixels.len(),
        is_identity_mapping(targets, src.width),
    ensures
        scattered(src, false, targets) == src,
{
    let out = scattered(src, false, targets);
    let n = src.pixels.len() as int;
    lemma_scattered(src, false, targets);
    assert forall|x: int, y: int| out.contains(x, y) implies out.at(x, y) == src.at(x, y) by {
        lemma_index_of(src, x, y);
        lemma_last_landing(targets, n, x, y);
        let i = src.index_of(x, y);
        let k = last_landing(targets, n, x, y);
        assert(lands_on(targets, i, x, y));
        if k >= 0 {
            assert(lands_on(targets, k, x, y));
            lemma_coordinate_of(src, k);
        }
    }
    lemma_raster_ext(out, src);
}

impl Processing {
    /// Writes every pixel of `img` to its target in a fresh black buffer:
    /// pixel number `k`, counted row after row, to column `targets[k].0` and
    /// row `targets[k].1`. The result has the size of `img`, with width and
    /// height exchanged if `swap_axes`. A pixel without a target, or with
    /// one outside the result, is dropped; where several land on one place,
    /// the last one stays. The size of the result has to be one that a
    /// buffer can have; without `swap_axes` it always is.
    pub fn rotate(img: &PixelBuffer, swap_axes: bool, targets: &Vec<(i64, i64)>) -> (out:
        PixelBuffer)
        requires
            swap_axes ==> PixelBuffer::fits(img@.height, img@.width),
        ensures
            out@ == scattered(img@, swap_axes, targets@),
            out@.wf(),
    {
        let (w, h) = img.dimensions();
        let (rw, rh) = if swap_axes {
            (h, w)
        } else {
            (w, h)
        };
        assert(3 * rw * rh == 3 * w * h) by (nonlinear_arith)
            requires
                (rw == w && rh == h) || (rw == h && rh == w),
        ;
        assert(w * h <= 3 * w * h) by (nonlinear_arith)
            requires
                0 <= w,
                0 <= h,
        ;
        let mut out = PixelBuffer::blank(rw, rh);
        let ghost src = img@;
        proof {
            assert forall|a: int, b: int| out@.contains(a, b) implies #[trigger] out@.at(a, b)
                == scattered_color(src, targets@, 0, a, b) by {
                lemma_index_of(out@, a, b);
            }
        }
        let mut k: usize = 0;
        let mut y: u32 = 0;
        while y < h
            invariant
                y <= h,
                k == y * w,
                src == img@,
                src.wf(),
                src.width == w,
                src.height == h,
                w * h <= usize::MAX,
                out@.wf(),
                out@.width == rw,
                out@.height == rh,
                forall|a: int, b: int|
                    out@.contains(a, b) ==> #[trigger] out@.at(a, b) == scattered_color(
                        src,
                        targets@,
                        k as int,
                        a,
                        b,
                    ),
            decreases h - y,
        {
            let mut x: u32 = 0;
            while x < w
                invariant
                    y < h,
                    x <= w,
                    k == y * w + x,
                    src == img@,
                    src.wf(),
                    src.width == w,
                    src.height == h,
                    w * h <= usize::MAX,
                    out@.wf(),
                    out@.width == rw,
                    out@.height == rh,
                    forall|a: int, b: int|
                        out@.contains(a, b) ==> #[trigger] out@.at(a, b) == scattered_color(
                            src,
                            targets@,
                            k as int,
                            a,
                            b,
                        ),
                decreases w - x,
            {
                let ghost cur = out@;
                proof {
                    lemma_index_of(src, x as int, y as int);
                }
                if k < targets.len() {
                    let (new_x, new_y) = targets[k];
                    if 0 <= new_x && new_x < rw as i64 && 0 <= new_y && new_y < rh as i64 {
                        let c = img.pixel(x, y);
                        proof {
                            lemma_index_of(cur, new_x as int, new_y as int);
                        }
                        out.set_pixel(new_x as u32, new_y as u32, c);
                    }
                }
                proof {
                    assert forall|a: int, b: int| out@.contains(a, b) implies #[trigger] out@.at(
                        a,
                        b,
                    ) == scattered_color(src, targets@, k + 1, a, b) by {
                        lemma_index_of(cur, a, b);
                        assert(cur.at(a, b) == scattered_color(src, targets@, k as int, a, b));
                    }
                }
                x = x + 1;
                k = k + 1;
            }
            assert(y * w + w == (y + 1) * w) by (nonlinear_arith);
            y = y + 1;
        }
        proof {
            assert(h * w == w * h) by (nonlinear_arith);
            let want = scattered(src, swap_axes, targets@);
            lemma_scattered(src, swap_axes, targets@);
            lemma_raster_ext(out@, want);
        }
        out
    }
}

} // verus!
