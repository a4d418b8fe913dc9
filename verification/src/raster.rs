//! Image buffers with 8-bit samples, and the resampling and colour routines
//! that the pipeline takes from the `image` crate.

use vstd::prelude::*;

verus! {

/// What the contracts see of an image: its dimensions and its samples, row
/// after row, the channels of one pixel next to each other.
pub struct Raster {
    pub width: nat,
    pub height: nat,
    pub samples: Seq<u8>,
}

impl Raster {
    /// One sample per pixel.
    pub open spec fn is_gray(self) -> bool {
        self.samples.len() == self.width * self.height
    }

    /// Three samples per pixel: red, green, blue.
    pub open spec fn is_color(self) -> bool {
        self.samples.len() == 3 * (self.width * self.height)
    }

    /// The sample of a single-channel image at column `x` of row `y`.
    pub open spec fn gray_at(self, x: int, y: int) -> u8 {
        self.samples[y * self.width + x]
    }

    /// Channel `c` of the pixel of a three-channel image at column `x` of row `y`.
    pub open spec fn color_at(self, x: int, y: int, c: int) -> u8 {
        self.samples[(y * self.width + x) * 3 + c]
    }
}

/// The least of two lengths.
pub open spec fn least(a: nat, b: nat) -> nat {
    if a <= b {
        a
    } else {
        b
    }
}

impl Raster {
    /// The part of a three-channel image that a rectangle covers. The corner
    /// is first moved into the image, then the sides are cut to what is left
    /// of the image to the right of the corner and below it.
    pub open spec fn color_crop(self, x: nat, y: nat, width: nat, height: nat) -> Raster {
        let left = least(x, self.width);
        let top = least(y, self.height);
        let w = least(width, (self.width - left) as nat);
        let h = least(height, (self.height - top) as nat);
        Raster {
            width: w,
            height: h,
            samples: Seq::new(
                3 * (w * h),
                |i: int| self.color_at(left + (i / 3) % (w as int), top + (i / 3) / (w as int), i % 3),
            ),
        }
    }
}

/// A single-channel image.
#[derive(Clone, Debug, PartialEq, Eq)]
pub struct GrayImage {
    pub width: u32,
    pub height: u32,
    pub pixels: Vec<u8>,
}

impl View for GrayImage {
    type V = Raster;

    open spec fn view(&self) -> Raster {
        Raster { width: self.width as nat, height: self.height as nat, samples: self.pixels@ }
    }
}

/// Places the pixel `(x, y)` of a `width` by `height` grid inside the grid's
/// row-major buffer.
pub proof fn lemma_pixel_index(x: int, y: int, width: int, height: int)
    requires
        0 <= x < width,
        0 <= y < height,
    ensures
        0 <= y * width <= y * width + x < width * height,
{
    assert(y * width >= 0) by (nonlinear_arith)
        requires
            y >= 0,
            width >= 0,
    ;
    assert((y + 1) * width <= height * width) by (nonlinear_arith)
        requires
            y + 1 <= height,
            width >= 0,
    ;
    assert((y + 1) * width == y * width + width) by (nonlinear_arith);
    assert(height * width == width * height) by (nonlinear_arith);
}

impl GrayImage {
    /// The buffer holds exactly one sample for each pixel.
    pub open spec fn wf(&self) -> bool {
        self@.is_gray()
    }

    /// Wraps a row-major buffer; `None` unless it holds `width * height` samples.
    pub fn from_raw(width: u32, height: u32, pixels: Vec<u8>) -> (out: Option<GrayImage>)
        ensures
            out is Some <==> pixels@.len() == width * height,
            out matches Some(image) ==> image.wf() && image@ == (Raster {
                width: width as nat,
                height: height as nat,
                samples: pixels@,
            }),
    {
        assert(width * height <= 0xffff_ffff * 0xffff_ffff) by (nonlinear_arith)
            requires
                0 <= width <= 0xffff_ffff,
                0 <= height <= 0xffff_ffff,
        ;
        if pixels.len() as u64 == (width as u64) * (height as u64) {
            Some(GrayImage { width, height, pixels })
        } else {
            None
        }
    }

    /// The sample at column `x` of row `y`.
    pub fn get_pixel(&self, x: u32, y: u32) -> (level: u8)
        requires
            self.wf(),
            x < self.width,
            y < self.height,
        ensures
            level == self@.gray_at(x as int, y as int),
    {
        let row: usize = y as usize;
        let stride: usize = self.width as usize;
        proof {
            lemma_pixel_index(x as int, row as int, stride as int, self.height as int);
            assert(self.pixels@.len() == self.pixels.len());
        }
        self.pixels[row * stride + (x as usize)]
    }
}

/// A three-channel image: red, green and blue samples, pixel after pixel.
#[derive(Clone, Debug, PartialEq, Eq)]
pub struct ColorImage {
    pub width: u32,
    pub height: u32,
    pub pixels: Vec<u8>,
}

impl View for ColorImage {
    type V = Raster;

    open spec fn view(&self) -> Raster {
        Raster { width: self.width as nat, height: self.height as nat, samples: self.pixels@ }
    }
}

impl ColorImage {
    /// The buffer holds exactly three samples for each pixel.
    pub open spec fn wf(&self) -> bool {
        self@.is_color()
    }

    /// Wraps a row-major buffer; `None` unless it holds `3 * width * height` samples.
    pub fn from_raw(width: u32, height: u32, pixels: Vec<u8>) -> (out: Option<ColorImage>)
        ensures
            out is Some <==> pixels@.len() == 3 * (width * height),
            out matches Some(image) ==> image.wf() && image@ == (Raster {
                width: width as nat,
                height: height as nat,
                samples: pixels@,
            }),
    {
        assert(width * height <= 0xffff_ffff * 0xffff_ffff) by (nonlinear_arith)
            requires
                0 <= width <= 0xffff_ffff,
                0 <= height <= 0xffff_ffff,
        ;
        if pixels.len() as u128 == 3 * ((width as u128) * (height as u128)) {
            Some(ColorImage { width, height, pixels })
        } else {
            None
        }
    }
}

/// An image of either kind.
#[derive(Clone, Debug, PartialEq, Eq)]
pub enum Image {
    Gray(GrayImage),
    Color(ColorImage),
}

impl Image {
    /// The image inside is well formed.
    pub open spec fn wf(&self) -> bool {
        match self {
            Image::Gray(image) => image.wf(),
            Image::Color(image) => image.wf(),
        }
    }

    /// The dimensions and the samples of the image inside.
    pub open spec fn raster(&self) -> Raster {
        match self {
            Image::Gray(image) => image@,
            Image::Color(image) => image@,
        }
    }
}

/// The resampling kernels that the pipeline uses.
#[derive(Clone, Copy, Debug, PartialEq, Eq)]
pub enum ResampleFilter {
    /// Linear interpolation.
    Triangle,
    /// The Catmull-Rom cubic.
    CatmullRom,
}

/// Resampling takes sides below this length only. Up to it every pixel
/// centre is an exact single-precision number, which the outside resampling
/// relies on for its weights.
pub const RESAMPLING_LIMIT: u32 = 0x80_0000;

/// The samples that `image::DynamicImage::resize_exact` gives for a
/// three-channel source, the new dimensions and the kernel.
pub uninterp spec fn stretched(source: Raster, width: u32, height: u32, filter: ResampleFilter) -> Seq<u8>;

/// The intensities that `image::DynamicImage::to_luma8` gives for a
/// three-channel source, one per pixel.
pub uninterp spec fn luma(source: Raster) -> Seq<u8>;

/// `image::DynamicImage::resize_exact` on an 8-bit RGB image. Trusted: the
/// result has exactly the dimensions asked for, three samples per pixel, and
/// the samples named by [`stretched`]. The limit on the four sides keeps the
/// weights of the resampling from vanishing, and the two products keep its
/// buffers within what a vector can hold.
#[verifier::external_body]
pub(crate) fn resize_exact(
    source: &ColorImage,
    width: u32,
    height: u32,
    filter: ResampleFilter,
) -> (out: ColorImage)
    requires
        source.wf(),
        source.width < RESAMPLING_LIMIT,
        source.height < RESAMPLING_LIMIT,
        width < RESAMPLING_LIMIT,
        height < RESAMPLING_LIMIT,
        16 * (source.width * height) <= isize::MAX,
        16 * (width * height) <= isize::MAX,
    ensures
        out.wf(),
        out.width == width,
        out.height == height,
        out.pixels@ == stretched(source@, width, height, filter),
{
    let buffer = image::RgbImage::from_raw(source.width, source.height, source.pixels.clone());
    let kernel = match filter {
        ResampleFilter::Triangle => image::imageops::FilterType::Triangle,
        ResampleFilter::CatmullRom => image::imageops::FilterType::CatmullRom,
    };
    let resized = image::DynamicImage::ImageRgb8(buffer.unwrap())
        .resize_exact(width, height, kernel)
        .into_rgb8();
    ColorImage { width: resized.width(), height: resized.height(), pixels: resized.into_raw() }
}

/// `image::DynamicImage::to_luma8` on an 8-bit RGB image. Trusted: the result
/// keeps the dimensions and holds, pixel by pixel, the intensities named by
/// [`luma`].
#[verifier::external_body]
pub(crate) fn to_luma(source: &ColorImage) -> (out: GrayImage)
    requires
        source.wf(),
    ensures
        out.wf(),
        out.width == source.width,
        out.height == source.height,
        out.pixels@ == luma(source@),
{
    let buffer = image::RgbImage::from_raw(source.width, source.height, source.pixels.clone());
    let gray = image::DynamicImage::ImageRgb8(buffer.unwrap()).to_luma8();
    GrayImage { width: gray.width(), height: gray.height(), pixels: gray.into_raw() }
}

/// `image::DynamicImage::crop_imm` on an 8-bit RGB image. Trusted: the
/// result is [`Raster::color_crop`] of the source, a rectangle that starts
/// outside the image or reaches beyond it being cut to the image.
#[verifier::external_body]
pub(crate) fn crop_imm(source: &ColorImage, x: u32, y: u32, width: u32, height: u32) -> (out:
    ColorImage)
    requires
        source.wf(),
    ensures
        out.wf(),
        out@ == source@.color_crop(x as nat, y as nat, width as nat, height as nat),
{
    let buffer = image::RgbImage::from_raw(source.width, source.height, source.pixels.clone());
    let part = image::DynamicImage::ImageRgb8(buffer.unwrap())
        .crop_imm(x, y, width, height)
        .into_rgb8();
    ColorImage { width: part.width(), height: part.height(), pixels: part.into_raw() }
}

} // verus!
