//! The mathematical model of a pixel buffer.

use vstd::prelude::*;

verus! {

/// One pixel as its red, green and blue samples.
pub type Color = (u8, u8, u8);

/// The value every sample of a fresh buffer holds.
pub open spec fn black() -> Color {
    (0u8, 0u8, 0u8)
}

/// The mathematical content of a pixel buffer: `width * height` pixels, row
/// after row from the top, each row from the left.
pub struct Raster {
    pub width: nat,
    pub height: nat,
    pub pixels: Seq<Color>,
}

impl Raster {
    /// There is exactly one pixel per coordinate.
    pub open spec fn wf(self) -> bool {
        self.pixels.len() == self.width * self.height
    }

    pub open spec fn contains(self, x: int, y: int) -> bool {
        0 <= x < self.width && 0 <= y < self.height
    }

    /// The position of `(x, y)` in `pixels`.
    pub open spec fn index_of(self, x: int, y: int) -> int {
        y * self.width + x
    }

    pub open spec fn at(self, x: int, y: int) -> Color {
        self.pixels[self.index_of(x, y)]
    }

    /// The raster of the given size whose pixel at `(x, y)` is `f(x, y)`.
    pub open spec fn build(width: nat, height: nat, f: spec_fn(int, int) -> Color) -> Raster {
        Raster {
            width,
            height,
            pixels: Seq::new(
                width * height,
                |i: int| if width > 0 { f(i % (width as int), i / (width as int)) } else { black() },
            ),
        }
    }

    /// The all-black raster of the given size.
    pub open spec fn blank(width: nat, height: nat) -> Raster {
        Raster { width, height, pixels: Seq::new(width * height, |i: int| black()) }
    }

    /// The raster that stores the given samples, three per pixel.
    pub open spec fn from_samples(width: nat, height: nat, samples: Seq<u8>) -> Raster {
        Raster {
            width,
            height,
            pixels: Seq::new(
                width * height,
                |i: int| (samples[3 * i], samples[3 * i + 1], samples[3 * i + 2]),
            ),
        }
    }

    /// The samples of this raster, three per pixel.
    pub open spec fn samples(self) -> Seq<u8> {
        Seq::new(
            3 * self.pixels.len(),
            |k: int|
                if k % 3 == 0 {
                    self.pixels[k / 3].0
                } else if k % 3 == 1 {
                    self.pixels[k / 3].1
                } else {
                    self.pixels[k / 3].2
                },
        )
    }
}

/// A coordinate inside a raster has its index inside the pixel sequence, and
/// the index determines the coordinate.
pub proof fn lemma_index_of(r: Raster, x: int, y: int)
    requires
        r.wf(),
        r.contains(x, y),
    ensures
        0 <= r.index_of(x, y) < r.pixels.len(),
        r.index_of(x, y) % (r.width as int) == x,
        r.index_of(x, y) / (r.width as int) == y,
{
    let w = r.width as int;
    let h = r.height as int;
    assert(0 <= y * w + x < w * h) by (nonlinear_arith)
        requires
            0 <= x < w,
            0 <= y < h,
    ;
    vstd::arithmetic::div_mod::lemma_fundamental_div_mod_converse(y * w + x, w, y, x);
}

/// Every index of the pixel sequence belongs to one coordinate of the raster.
pub proof fn lemma_coordinate_of(r: Raster, i: int)
    requires
        r.wf(),
        0 <= i < r.pixels.len(),
    ensures
        r.width > 0,
        r.contains(i % (r.width as int), i / (r.width as int)),
        r.index_of(i % (r.width as int), i / (r.width as int)) == i,
{
    let w = r.width as int;
    let h = r.height as int;
    assert(w > 0) by (nonlinear_arith)
        requires
            0 <= w,
            0 <= i < w * h,
    ;
    vstd::arithmetic::div_mod::lemma_fundamental_div_mod(i, w);
    assert(0 <= i / w < h && 0 <= i % w < w && (i / w) * w + i % w == i) by (nonlinear_arith)
        requires
            w > 0,
            0 <= i < w * h,
            i == w * (i / w) + i % w,
            0 <= i % w < w,
    ;
}

/// Two well-formed rasters of one size with the same pixel at every
/// coordinate are the same raster.
pub proof fn lemma_raster_ext(a: Raster, b: Raster)
    requires
        a.wf(),
        b.wf(),
        a.width == b.width,
        a.height == b.height,
        forall|x: int, y: int| a.contains(x, y) ==> a.at(x, y) == b.at(x, y),
    ensures
        a == b,
{
    assert forall|i: int| 0 <= i < a.pixels.len() implies a.pixels[i] == b.pixels[i] by {
        lemma_coordinate_of(a, i);
        let x = i % (a.width as int);
        let y = i / (a.width as int);
        assert(a.at(x, y) == b.at(x, y));
    }
    assert(a.pixels =~= b.pixels);
}

/// `Raster::build` is well-formed and holds `f(x, y)` at `(x, y)`.
pub proof fn lemma_build(width: nat, height: nat, f: spec_fn(int, int) -> Color)
    ensures
        Raster::build(width, height, f).wf(),
        forall|x: int, y: int|
            #![trigger Raster::build(width, height, f).at(x, y)]
            0 <= x < width && 0 <= y < height ==> Raster::build(width, height, f).at(x, y) == f(
                x,
                y,
            ),
{
    let r = Raster::build(width, height, f);
    assert forall|x: int, y: int| 0 <= x < width && 0 <= y < height implies r.at(x, y) == f(
        x,
        y,
    ) by {
        lemma_index_of(r, x, y);
    }
}

/// Whether `(x, y)` lies on the outline of the rectangle with the given top
/// left corner and size: inside it, and in its first or last column or row.
pub open spec fn on_outline(x: int, y: int, left: int, top: int, width: int, height: int) -> bool {
    &&& left <= x < left + width
    &&& top <= y < top + height
    &&& (x == left || x == left + width - 1 || y == top || y == top + height - 1)
}

/// The pixels of an image of the given width, with the outline of a
/// rectangle drawn over them in one colour.
pub open spec fn outline_over(
    pixels: Seq<Color>,
    width: nat,
    left: u32,
    top: u32,
    rect_width: u32,
    rect_height: u32,
    color: Color,
) -> Seq<Color> {
    Seq::new(
        pixels.len(),
        |i: int|
            if width > 0 && on_outline(
                i % (width as int),
                i / (width as int),
                left as int,
                top as int,
                rect_width as int,
                rect_height as int,
            ) {
                color
            } else {
                pixels[i]
            },
    )
}

} // verus!
