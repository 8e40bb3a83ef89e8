//! The pixel buffer.
//!
//! The samples live in an `image::RgbImage`. The functions of this module
//! that touch it are marked `external_body`: their contracts are believed,
//! not proved. Everything else in the crate is verified against those
//! contracts.

use vstd::prelude::*;
use image::ImageError;
use image::Rgb;
use image::RgbImage;
use crate::raster::black;
use crate::raster::Color;
use crate::raster::lemma_index_of;
use crate::raster::outline_over;
use crate::raster::Raster;

verus! {

/// `image::ImageError`, the failure of the codecs. Nothing is known of its
/// content; it is carried to the place where it becomes an `EngineError`.
#[verifier::external_type_specification]
#[verifier::external_body]
pub struct ExImageError(ImageError);

/// The file formats in which a buffer can be written.
#[derive(Clone, Copy, Debug, PartialEq, Eq, Structural)]
pub enum OutputFormat {
    Png,
    Jpeg,
}

/// A width x height raster of RGB pixels, stored by the `image` crate.
#[verifier::external_body]
#[derive(Debug)]
pub struct PixelBuffer {
    inner: RgbImage,
}

/// What `ImageBuffer::width` returns for the stored image.
pub uninterp spec fn buffer_width(buf: &PixelBuffer) -> nat;

/// What `ImageBuffer::height` returns for the stored image.
pub uninterp spec fn buffer_height(buf: &PixelBuffer) -> nat;

/// The pixels of the stored image in the order in which `ImageBuffer::pixels`
/// walks them: row after row from the top, each row from the left.
pub uninterp spec fn buffer_pixels(buf: &PixelBuffer) -> Seq<Color>;

/// The bytes that `ImageBuffer::write_to` writes for an image with the
/// given size and pixels, as PNG if `png` and as JPEG otherwise; `None` where
/// it reports an error.
pub uninterp spec fn encoded(width: nat, height: nat, pixels: Seq<Color>, png: bool) -> Option<
    Seq<u8>,
>;

/// The largest width and height of an image on which outlines are drawn
/// exactly: up to here every column and row is a 32-bit floating point
/// number, in which the drawing routine counts.
pub const DRAW_LIMIT: u32 = 0x0100_0000;

/// The column and row past which no outline reaches. The drawing routine
/// rounds the far sides of a rectangle to 32-bit floating point and walks up
/// to them in `i32`; up to here the rounded side stays below the largest
/// `i32`.
pub const DRAW_REACH: u32 = 0x7FFF_FF80;

/// The pixels of the image that `imageproc::drawing::draw_hollow_rect`
/// returns for an image with the given size and pixels and a rectangle with
/// the given top left corner and size.
pub uninterp spec fn outlined(
    width: nat,
    height: nat,
    pixels: Seq<Color>,
    left: u32,
    top: u32,
    rect_width: u32,
    rect_height: u32,
    color: Color,
) -> Seq<Color>;

/// The largest width and height of an image that is resampled. The
/// resampling routine places its samples in 32-bit floating point. Up to
/// here a position is off by two pixels at most, and a filter that spans
/// four pixels or more to either side, as the one of a quarter-size copy
/// does, always finds source pixels; where a filter finds none, the routine
/// panics.
pub const RESAMPLE_LIMIT: u32 = 0x0100_0000;

/// The pixels of the image that `image::imageops::resize` returns for an
/// image with the given size and pixels, a new size and the triangle filter.
pub uninterp spec fn resized(
    width: nat,
    height: nat,
    pixels: Seq<Color>,
    new_width: u32,
    new_height: u32,
) -> Seq<Color>;

/// The number of samples of an image of 32-bit width and height, computed
/// in wider integers, is three times the product of width and height, and
/// stays far below their range.
pub proof fn lemma_sample_count(width: u32, height: u32)
    ensures
        3 * width * height == 3 * ((width as int) * (height as int)),
        0 <= (width as int) * (height as int) <= 0xFFFF_FFFF * 0xFFFF_FFFF,
{
    let w = width as int;
    let h = height as int;
    assert(0 <= w * h <= 0xFFFF_FFFF * 0xFFFF_FFFF) by (nonlinear_arith)
        requires
            0 <= w <= 0xFFFF_FFFF,
            0 <= h <= 0xFFFF_FFFF,
    ;
    assert(3 * w * h == 3 * (w * h)) by (nonlinear_arith);
}

impl View for PixelBuffer {
    type V = Raster;

    open spec fn view(&self) -> Raster {
        Raster {
            width: buffer_width(self),
            height: buffer_height(self),
            pixels: buffer_pixels(self),
        }
    }
}

impl PixelBuffer {
    /// `ImageBuffer::dimensions`. The image holds one pixel per coordinate.
    /// It was built only after the number of samples of one row, and then
    /// that of all rows, had been computed in `usize` without overflow. Its
    /// three samples per pixel lie in a `Vec<u8>`, which never holds more
    /// than `isize::MAX` bytes.
    #[verifier::external_body]
    fn raw_dimensions(&self) -> (d: (u32, u32))
        ensures
            d.0 == buffer_width(self),
            d.1 == buffer_height(self),
            buffer_pixels(self).len() == d.0 * d.1,
            3 * d.0 <= usize::MAX,
            3 * d.0 * d.1 <= isize::MAX,
    {
        self.inner.dimensions()
    }

    /// `ImageBuffer::get_pixel`, which panics outside the image and otherwise
    /// returns the pixel stored at row `y`, column `x`.
    #[verifier::external_body]
    fn raw_get(&self, x: u32, y: u32) -> (c: Color)
        requires
            x < buffer_width(self),
            y < buffer_height(self),
        ensures
            c == buffer_pixels(self)[y * buffer_width(self) + x],
    {
        let p = self.inner.get_pixel(x, y);
        (p.0[0], p.0[1], p.0[2])
    }

    /// `ImageBuffer::put_pixel`, which panics outside the image and otherwise
    /// replaces the pixel at row `y`, column `x` and nothing else.
    #[verifier::external_body]
    fn raw_put(&mut self, x: u32, y: u32, c: Color)
        requires
            x < buffer_width(old(self)),
            y < buffer_height(old(self)),
        ensures
            buffer_width(final(self)) == buffer_width(old(self)),
            buffer_height(final(self)) == buffer_height(old(self)),
            buffer_pixels(final(self)) == buffer_pixels(old(self)).update(
                y * buffer_width(old(self)) + x,
                c,
            ),
    {
        self.inner.put_pixel(x, y, Rgb([c.0, c.1, c.2]))
    }

    /// `ImageBuffer::new`. It computes the number of samples of one row and
    /// then that of all rows in `usize` and panics where either overflows,
    /// or where the samples are more than a `Vec<u8>` can hold. Otherwise it
    /// returns an image of zeroed samples.
    #[verifier::external_body]
    fn raw_blank(width: u32, height: u32) -> (buf: PixelBuffer)
        requires
            3 * width <= usize::MAX,
            3 * width * height <= isize::MAX,
        ensures
            buffer_width(&buf) == width,
            buffer_height(&buf) == height,
            buffer_pixels(&buf) == Seq::new((width * height) as nat, |i: int| black()),
    {
        PixelBuffer { inner: RgbImage::new(width, height) }
    }

    /// `ImageBuffer::from_raw`. It computes the number of samples of one
    /// row and then that of all rows in `usize`, and accepts a sample vector
    /// where neither overflows and the vector holds at least that many
    /// samples. It reads the pixels from the front of the vector.
    #[verifier::external_body]
    fn raw_from_samples(width: u32, height: u32, samples: Vec<u8>) -> (buf: Option<PixelBuffer>)
        ensures
            buf.is_some() <==> (3 * width <= usize::MAX && 3 * width * height <= samples@.len()),
            buf.is_some() ==> buffer_width(&buf.unwrap()) == width,
            buf.is_some() ==> buffer_height(&buf.unwrap()) == height,
            buf.is_some() ==> buffer_pixels(&buf.unwrap()) == Seq::new(
                (width * height) as nat,
                |i: int| (samples@[3 * i], samples@[3 * i + 1], samples@[3 * i + 2]),
            ),
    {
        RgbImage::from_raw(width, height, samples).map(|inner| PixelBuffer { inner })
    }

    /// `ImageBuffer::pixels`, flattened: the three samples of each pixel in
    /// the order of the pixels.
    #[verifier::external_body]
    fn raw_samples(&self) -> (samples: Vec<u8>)
        ensures
            samples@.len() == 3 * buffer_pixels(self).len(),
            forall|i: int|
                0 <= i < buffer_pixels(self).len() ==> (#[trigger] buffer_pixels(self)[i]) == (
                    samples@[3 * i],
                    samples@[3 * i + 1],
                    samples@[3 * i + 2],
                ),
    {
        self.inner.pixels().flat_map(|p| p.0).collect()
    }

    /// `ImageBuffer::clone`, which copies the samples and the dimensions.
    #[verifier::external_body]
    fn raw_clone(&self) -> (copy: PixelBuffer)
        ensures
            buffer_width(&copy) == buffer_width(self),
            buffer_height(&copy) == buffer_height(self),
            buffer_pixels(&copy) == buffer_pixels(self),
    {
        PixelBuffer { inner: self.inner.clone() }
    }

    /// `image::load_from_memory`, with the image converted to 8-bit RGB by
    /// `DynamicImage::into_rgb8`. Nothing is promised of the result: the
    /// decoders choose their arithmetic by the processor they run on, so the
    /// same bytes may give pixels that differ from machine to machine.
    #[verifier::external_body]
    pub(crate) fn raw_decode(bytes: &[u8]) -> (res: Result<PixelBuffer, ImageError>) {
        image::load_from_memory(bytes).map(|img| PixelBuffer { inner: img.into_rgb8() })
    }

    /// `ImageBuffer::write_to` into a vector, as PNG or as JPEG.
    #[verifier::external_body]
    pub(crate) fn raw_encode(&self, format: OutputFormat) -> (res: Result<Vec<u8>, ImageError>)
        ensures
            res.is_ok() ==> encoded(
                buffer_width(self),
                buffer_height(self),
                buffer_pixels(self),
                format == OutputFormat::Png,
            ) == Some(res.unwrap()@),
            res.is_err() ==> encoded(
                buffer_width(self),
                buffer_height(self),
                buffer_pixels(self),
                format == OutputFormat::Png,
            ).is_none(),
    {
        let mut out = std::io::Cursor::new(Vec::new());
        let target = match format {
            OutputFormat::Png => image::ImageFormat::Png,
            OutputFormat::Jpeg => image::ImageFormat::Jpeg,
        };
        self.inner.write_to(&mut out, target).map(|_| out.into_inner())
    }

    /// `imageproc::drawing::draw_hollow_rect` on a rectangle made by
    /// `Rect::at` and `RectPosition::of_size`; the latter panics on an empty
    /// rectangle. The routine copies the image and draws the four sides of
    /// the rectangle as line segments between its corners, which it takes as
    /// 32-bit floating point numbers and walks in `i32`; past `DRAW_REACH`
    /// that walk may overflow. For a rectangle inside an image of at most
    /// `DRAW_LIMIT` columns and rows the corners are exact, and the segments
    /// are the first and last row and column of the rectangle.
    #[verifier::external_body]
    pub(crate) fn raw_outline(
        &self,
        left: u32,
        top: u32,
        rect_width: u32,
        rect_height: u32,
        color: Color,
    ) -> (out: PixelBuffer)
        requires
            rect_width > 0,
            rect_height > 0,
            left + rect_width <= DRAW_REACH,
            top + rect_height <= DRAW_REACH,
        ensures
            buffer_width(&out) == buffer_width(self),
            buffer_height(&out) == buffer_height(self),
            buffer_pixels(&out) == outlined(
                buffer_width(self),
                buffer_height(self),
                buffer_pixels(self),
                left,
                top,
                rect_width,
                rect_height,
                color,
            ),
            buffer_width(self) <= DRAW_LIMIT && buffer_height(self) <= DRAW_LIMIT && left
                + rect_width <= buffer_width(self) && top + rect_height <= buffer_height(self)
                ==> buffer_pixels(&out) == outline_over(
                buffer_pixels(self),
                buffer_width(self),
                left,
                top,
                rect_width,
                rect_height,
                color,
            ),
    {
        let rect = imageproc::rect::Rect::at(left as i32, top as i32).of_size(
            rect_width,
            rect_height,
        );
        let paint = Rgb([color.0, color.1, color.2]);
        PixelBuffer { inner: imageproc::drawing::draw_hollow_rect(&self.inner, rect, paint) }
    }

    /// `image::imageops::resize` with `FilterType::Triangle`. It resamples
    /// through an image of four 32-bit samples per pixel that has the width
    /// of the source and the new height, and it places its samples in
    /// 32-bit floating point. It is called here only to make an image of at
    /// most `RESAMPLE_LIMIT` columns and rows at least four times smaller
    /// in width and in height. The result has the new size.
    #[verifier::external_body]
    pub(crate) fn raw_resize(&self, new_width: u32, new_height: u32) -> (out: PixelBuffer)
        requires
            buffer_width(self) <= RESAMPLE_LIMIT,
            buffer_height(self) <= RESAMPLE_LIMIT,
            4 * new_width <= buffer_width(self),
            4 * new_height <= buffer_height(self),
            16 * buffer_width(self) * new_height <= isize::MAX,
        ensures
            buffer_width(&out) == new_width,
            buffer_height(&out) == new_height,
            buffer_pixels(&out) == resized(
                buffer_width(self),
                buffer_height(self),
                buffer_pixels(self),
                new_width,
                new_height,
            ),
    {
        let filter = image::imageops::FilterType::Triangle;
        PixelBuffer { inner: image::imageops::resize(&self.inner, new_width, new_height, filter) }
    }

    /// Whether a buffer of this size can exist at all: the samples of one
    /// row have to be countable in `usize`, and the three samples per pixel
    /// have to fit in one allocation.
    pub open spec fn fits(width: nat, height: nat) -> bool {
        3 * width <= usize::MAX && 3 * width * height <= isize::MAX
    }

    /// Width and height. Every buffer is well-formed and of a size that fits.
    pub fn dimensions(&self) -> (d: (u32, u32))
        ensures
            d.0 == self@.width,
            d.1 == self@.height,
            self@.wf(),
            Self::fits(self@.width, self@.height),
    {
        self.raw_dimensions()
    }

    pub fn width(&self) -> (w: u32)
        ensures
            w == self@.width,
            self@.wf(),
    {
        self.raw_dimensions().0
    }

    pub fn height(&self) -> (h: u32)
        ensures
            h == self@.height,
            self@.wf(),
    {
        self.raw_dimensions().1
    }

    /// Whether a buffer of this size can exist.
    pub fn size_fits(width: u32, height: u32) -> (ok: bool)
        ensures
            ok == Self::fits(width as nat, height as nat),
    {
        let w: u128 = width as u128;
        let h: u128 = height as u128;
        proof {
            lemma_sample_count(width, height);
        }
        3 * w <= usize::MAX as u128 && 3 * (w * h) <= isize::MAX as u128
    }

    /// An all-black buffer of the given size, or `None` when no buffer can
    /// have that size.
    pub fn new(width: u32, height: u32) -> (buf: Option<PixelBuffer>)
        ensures
            buf.is_some() <==> Self::fits(width as nat, height as nat),
            buf.is_some() ==> buf.unwrap()@ == Raster::blank(width as nat, height as nat),
            buf.is_some() ==> buf.unwrap()@.wf(),
    {
        if Self::size_fits(width, height) {
            Some(Self::raw_blank(width, height))
        } else {
            None
        }
    }

    /// An all-black buffer of a size that is known to fit.
    pub(crate) fn blank(width: u32, height: u32) -> (buf: PixelBuffer)
        requires
            Self::fits(width as nat, height as nat),
        ensures
            buf@ == Raster::blank(width as nat, height as nat),
            buf@.wf(),
    {
        Self::raw_blank(width, height)
    }

    /// The pixel at `(x, y)`, or `None` outside the buffer.
    pub fn get_pixel(&self, x: u32, y: u32) -> (c: Option<Color>)
        ensures
            self@.wf(),
            c.is_some() <==> self@.contains(x as int, y as int),
            c.is_some() ==> c.unwrap() == self@.at(x as int, y as int),
    {
        let (w, h) = self.raw_dimensions();
        if x < w && y < h {
            Some(self.raw_get(x, y))
        } else {
            None
        }
    }

    /// The pixel at a coordinate that is known to lie inside the buffer.
    pub(crate) fn pixel(&self, x: u32, y: u32) -> (c: Color)
        requires
            self@.contains(x as int, y as int),
        ensures
            c == self@.at(x as int, y as int),
    {
        self.raw_get(x, y)
    }

    /// Replaces the pixel at `(x, y)`. Outside the buffer nothing changes and
    /// the result is `false`.
    pub fn put_pixel(&mut self, x: u32, y: u32, c: Color) -> (done: bool)
        ensures
            done == old(self)@.contains(x as int, y as int),
            done ==> final(self)@ == (Raster {
                pixels: old(self)@.pixels.update(old(self)@.index_of(x as int, y as int), c),
                ..old(self)@
            }),
            !done ==> final(self)@ == old(self)@,
            old(self)@.wf(),
            final(self)@.wf(),
    {
        let (w, h) = self.raw_dimensions();
        if x < w && y < h {
            proof {
                lemma_index_of(self@, x as int, y as int);
            }
            self.raw_put(x, y, c);
            true
        } else {
            false
        }
    }

    /// Replaces the pixel at a coordinate that is known to lie inside the
    /// buffer.
    pub(crate) fn set_pixel(&mut self, x: u32, y: u32, c: Color)
        requires
            old(self)@.contains(x as int, y as int),
        ensures
            final(self)@ == (Raster {
                pixels: old(self)@.pixels.update(old(self)@.index_of(x as int, y as int), c),
                ..old(self)@
            }),
    {
        self.raw_put(x, y, c);
    }

    /// The buffer that stores the given samples, three per pixel with no
    /// padding, or `None` when their number is not `3 * width * height` or
    /// the samples of one row cannot be counted in `usize`.
    pub fn from_raw(width: u32, height: u32, samples: Vec<u8>) -> (buf: Option<PixelBuffer>)
        ensures
            buf.is_some() <==> (3 * width <= usize::MAX && samples@.len() == 3 * width * height),
            buf.is_some() ==> buf.unwrap()@ == Raster::from_samples(
                width as nat,
                height as nat,
                samples@,
            ),
            buf.is_some() ==> buf.unwrap()@.wf(),
    {
        let given: u128 = samples.len() as u128;
        let w: u128 = width as u128;
        let h: u128 = height as u128;
        proof {
            lemma_sample_count(width, height);
        }
        if 3 * w > usize::MAX as u128 || given != 3 * (w * h) {
            return None;
        }
        Self::raw_from_samples(width, height, samples)
    }

    /// The samples of the buffer, three per pixel with no padding.
    pub fn to_raw(&self) -> (samples: Vec<u8>)
        ensures
            samples@ == self@.samples(),
    {
        let samples = self.raw_samples();
        assert(samples@ =~= self@.samples()) by {
            assert forall|k: int| 0 <= k < samples@.len() implies samples@[k]
                == self@.samples()[k] by {
                let i = k / 3;
                assert(self@.pixels[i] == (samples@[3 * i], samples@[3 * i + 1], samples@[3 * i
                    + 2]));
            }
        }
        samples
    }

    /// A copy of the buffer.
    pub fn snapshot(&self) -> (copy: PixelBuffer)
        ensures
            copy@ == self@,
    {
        self.raw_clone()
    }
}

} // verus!
