//! The jitter: every pixel takes the colour of a pixel of its row a random
//! number of columns away.

use vstd::prelude::*;
use rand::Rng;
use crate::buffer::PixelBuffer;
use crate::processing::Processing;
use crate::processing::walked_before;
use crate::raster::Color;
use crate::raster::lemma_build;
use crate::raster::lemma_index_of;
use crate::raster::lemma_raster_ext;
use crate::raster::Raster;

verus! {

/// The displacement bound of `wobble`.
pub const DEFAULT_MAX_OFFSET: u32 = 100;

/// The horizontal displacement that a random sample stands for: a value in
/// `[-max_offset, max_offset)`, or none at all where `max_offset` is 0.
pub open spec fn displacement(sample: u32, max_offset: u32) -> int {
    if max_offset == 0 {
        0
    } else {
        (sample as int) % (2 * max_offset) - max_offset
    }
}

/// The displacement of the pixel with the given index. A pixel without a
/// sample is not displaced.
pub open spec fn displacement_at(samples: Seq<u32>, max_offset: u32, index: int) -> int {
    if 0 <= index < samples.len() {
        displacement(samples[index], max_offset)
    } else {
        0
    }
}

/// The colour that a displaced pixel takes: that of its row `dx` columns to
/// the right, or its own where that column is outside the raster.
pub open spec fn displaced_color(r: Raster, x: int, y: int, dx: int) -> Color {
    if 0 <= x + dx < r.width {
        r.at(x + dx, y)
    } else {
        r.at(x, y)
    }
}

/// The raster with every pixel displaced by what its sample stands for. All
/// pixels are read from `r`, none from the result.
pub open spec fn displaced(r: Raster, samples: Seq<u32>, max_offset: u32) -> Raster {
    Raster::build(
        r.width,
        r.height,
        |x: int, y: int|
            displaced_color(r, x, y, displacement_at(samples, max_offset, r.index_of(x, y))),
    )
}

/// A displacement stays in `[-max_offset, max_offset)`.
pub proof fn lemma_displacement_range(sample: u32, max_offset: u32)
    ensures
        max_offset == 0 ==> displacement(sample, max_offset) == 0,
        max_offset > 0 ==> -max_offset <= displacement(sample, max_offset) < max_offset,
{
}

/// A displaced raster has the size of its source, and each of its pixels is
/// the pixel of the source that its displacement points at.
pub proof fn lemma_displaced(r: Raster, samples: Seq<u32>, max_offset: u32)
    requires
        r.wf(),
    ensures
        displaced(r, samples, max_offset).wf(),
        displaced(r, samples, max_offset).width == r.width,
        displaced(r, samples, max_offset).height == r.height,
        forall|x: int, y: int|
            #![trigger displaced(r, samples, max_offset).at(x, y)]
            r.contains(x, y) ==> displaced(r, samples, max_offset).at(x, y) == displaced_color(
                r,
                x,
                y,
                displacement_at(samples, max_offset, r.index_of(x, y)),
            ),
{
    lemma_build(
        r.width,
        r.height,
        |x: int, y: int|
            displaced_color(r, x, y, displacement_at(samples, max_offset, r.index_of(x, y))),
    );
}

impl Processing {
    /// One value from the thread's random generator: `rand::thread_rng()`
    /// and `Rng::gen`. Any value may come back.
    #[verifier::external_body]
    fn random_sample() -> (sample: u32) {
        rand::thread_rng().gen::<u32>()
    }

    /// The displacement that a random sample stands for.
    pub fn offset_of(sample: u32, max_offset: u32) -> (dx: i64)
        ensures
            dx == displacement(sample, max_offset),
    {
        if max_offset == 0 {
            0
        } else {
            let span: u64 = 2 * (max_offset as u64);
            let within: u64 = (sample as u64) % span;
            within as i64 - max_offset as i64
        }
    }

    /// Displaces every pixel horizontally by what its sample stands for:
    /// pixel number `k`, counted row after row, by `samples[k]`. Pixels are
    /// read from the buffer as it was before the call.
    pub fn displace(buf: &mut PixelBuffer, samples: &Vec<u32>, max_offset: u32)
        ensures
            final(buf)@ == displaced(old(buf)@, samples@, max_offset),
            final(buf)@.wf(),
    {
        let prev = buf.snapshot();
        let (w, h) = buf.dimensions();
        let ghost before = buf@;
        let ghost want = displaced(before, samples@, max_offset);
        proof {
            lemma_displaced(before, samples@, max_offset);
        }
        assert(w * h <= 3 * w * h) by (nonlinear_arith)
            requires
                0 <= w,
                0 <= h,
        ;
        let mut k: usize = 0;
        let mut y: u32 = 0;
        while y < h
            invariant
                y <= h,
                k == y * w,
                prev@ == before,
                before.wf(),
                before.width == w,
                before.height == h,
                w * h <= usize::MAX,
                buf@.wf(),
                buf@.width == w,
                buf@.height == h,
                want == displaced(before, samples@, max_offset),
                forall|a: int, b: int|
                    before.contains(a, b) ==> #[trigger] buf@.at(a, b) == if b < y {
                        want.at(a, b)
                    } else {
                        before.at(a, b)
                    },
            decreases h - y,
        {
            let mut x: u32 = 0;
            while x < w
                invariant
                    y < h,
                    x <= w,
                    k == y * w + x,
                    prev@ == before,
                    before.wf(),
                    before.width == w,
                    before.height == h,
                    w * h <= usize::MAX,
                    buf@.wf(),
                    buf@.width == w,
                    buf@.height == h,
                    want == displaced(before, samples@, max_offset),
                    forall|a: int, b: int|
                        before.contains(a, b) ==> #[trigger] buf@.at(a, b) == if walked_before(
                            a,
                            b,
                            x as int,
                            y as int,
                        ) {
                            want.at(a, b)
                        } else {
                            before.at(a, b)
                        },
                decreases w - x,
            {
                let ghost cur = buf@;
                proof {
                    lemma_displaced(before, samples@, max_offset);
                    lemma_index_of(before, x as int, y as int);
                    lemma_index_of(cur, x as int, y as int);
                }
                let dx: i64 = if k < samples.len() {
                    Self::offset_of(samples[k], max_offset)
                } else {
                    0
                };
                let sx: i64 = x as i64 + dx;
                if 0 <= sx && sx < w as i64 {
                    let c = prev.pixel(sx as u32, y);
                    buf.set_pixel(x, y, c);
                }
                proof {
                    assert forall|a: int, b: int| before.contains(a, b) implies #[trigger] buf@.at(
                        a,
                        b,
                    ) == if walked_before(a, b, x + 1, y as int) {
                        want.at(a, b)
                    } else {
                        before.at(a, b)
                    } by {
                        lemma_index_of(cur, a, b);
                        assert(cur.at(a, b) == if walked_before(a, b, x as int, y as int) {
                            want.at(a, b)
                        } else {
                            before.at(a, b)
                        });
                    }
                }
                x = x + 1;
                k = k + 1;
            }
            assert(y * w + w == (y + 1) * w) by (nonlinear_arith);
            y = y + 1;
        }
        proof {
            lemma_raster_ext(buf@, want);
        }
    }

    /// Displaces every pixel horizontally by a random number of columns in
    /// `[-max_offset, max_offset)`. A pixel whose source column would lie
    /// outside the buffer keeps its colour.
    pub fn wobble_by(buf: &mut PixelBuffer, max_offset: u32)
        ensures
            final(buf)@.wf(),
            exists|samples: Seq<u32>|
                samples.len() == old(buf)@.pixels.len() && final(buf)@ == #[trigger] displaced(
                    old(buf)@,
                    samples,
                    max_offset,
                ),
    {
        let (w, h) = buf.dimensions();
        assert(w * h <= 3 * w * h) by (nonlinear_arith)
            requires
                0 <= w,
                0 <= h,
        ;
        let count: usize = (w as usize) * (h as usize);
        let mut samples: Vec<u32> = Vec::new();
        let mut k: usize = 0;
        while k < count
            invariant
                k <= count,
                samples@.len() == k,
            decreases count - k,
        {
            samples.push(Self::random_sample());
            k = k + 1;
        }
        Self::displace(buf, &samples, max_offset);
    }

    /// `wobble_by` with the default bound of 100 columns.
    pub fn wobble(buf: &mut PixelBuffer)
        ensures
            final(buf)@.wf(),
            exists|samples: Seq<u32>|
                samples.len() == old(buf)@.pixels.len() && final(buf)@ == #[trigger] displaced(
                    old(buf)@,
                    samples,
                    DEFAULT_MAX_OFFSET,
                ),
    {
        Self::wobble_by(buf, DEFAULT_MAX_OFFSET)
    }
}

} // verus!
