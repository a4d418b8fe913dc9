//! Preprocessing of a capture and detection of its text regions.

use crate::binary32::{exceeds, greater};
use crate::error::Error;
use crate::geometry::{
    all_fit, are_blank_boxes, boxes_from_contours, extent_of, is_kept, lemma_near_region_fits,
    lemma_one_contour_one_region, outlines, padded, regions, rescaled, Point, Region, Scale,
};
use crate::models::OcrBox;
use crate::raster::{
    lemma_pixel_index, luma, resize_exact, stretched, to_luma, ColorImage, GrayImage, Raster,
    ResampleFilter, RESAMPLING_LIMIT,
};
use vstd::prelude::*;
use vstd::string::StringExecFns;

verus! {

/// Neither side of the image handed to the detector is longer than this.
pub const MAX_RESOLUTION: u32 = 1920;

/// The intensity 153, as a single-precision bit pattern: blurred intensities
/// above it are background.
pub const BACKGROUND_ABOVE: u32 = 0x4319_0000;

/// The sample of a text pixel in a binarized image, and of a text position in
/// a mask.
pub const FOREGROUND: u8 = 255;

/// The sample of a background pixel.
pub const BACKGROUND: u8 = 0;

/// Both sides of the detector's input are multiples of this.
pub const PADDLE_OCR_MULTIPLIER: u32 = 32;

/// Whether neither side exceeds [`MAX_RESOLUTION`].
pub open spec fn is_within_cap(width: int, height: int) -> bool {
    width <= MAX_RESOLUTION && height <= MAX_RESOLUTION
}

/// The length of a side once the longer side has been brought down to
/// [`MAX_RESOLUTION`]: the side times the cap over the longer side, rounded
/// to the nearest whole pixel, halves upwards, and at least 1.
pub open spec fn fitted_side(side: int, longer: int) -> int {
    let rounded = (2 * (side * MAX_RESOLUTION) + longer) / (2 * longer);
    if rounded < 1 {
        1
    } else {
        rounded
    }
}

/// The width of the image handed to the detector for a capture: the width
/// itself within the cap; beyond it, the cap where the width is the longer
/// side, and the width brought down with the height otherwise.
pub open spec fn capped_width(width: int, height: int) -> int {
    if is_within_cap(width, height) {
        width
    } else if width >= height {
        MAX_RESOLUTION as int
    } else {
        fitted_side(width, height)
    }
}

/// The height of the image handed to the detector for a capture.
pub open spec fn capped_height(width: int, height: int) -> int {
    if is_within_cap(width, height) {
        height
    } else if width >= height {
        fitted_side(height, width)
    } else {
        MAX_RESOLUTION as int
    }
}

/// Beyond the cap, the longer side of the downscaled image is the cap, the
/// other side is within it, and the aspect ratio is kept up to the rounding
/// of that side to whole pixels.
pub proof fn lemma_capped_size(width: int, height: int)
    requires
        1 <= width,
        1 <= height,
        !is_within_cap(width, height),
    ensures
        1 <= capped_width(width, height) <= MAX_RESOLUTION,
        1 <= capped_height(width, height) <= MAX_RESOLUTION,
        capped_width(width, height) == MAX_RESOLUTION || capped_height(width, height)
            == MAX_RESOLUTION,
        width >= height ==> capped_height(width, height) == 1 || (2 * (capped_height(
            width,
            height,
        ) * width) - width <= 2 * (height * MAX_RESOLUTION) < 2 * (capped_height(width, height)
            * width) + width),
        width < height ==> capped_width(width, height) == 1 || (2 * (capped_width(width, height)
            * height) - height <= 2 * (width * MAX_RESOLUTION) < 2 * (capped_width(width, height)
            * height) + height),
{
    if width >= height {
        lemma_fitted_side(height, width);
    } else {
        lemma_fitted_side(width, height);
    }
}

/// A side brought down with a longer side stays within the cap and is the
/// nearest whole number to its exact length, or 1.
pub proof fn lemma_fitted_side(side: int, longer: int)
    requires
        0 <= side <= longer,
        1 <= longer,
    ensures
        1 <= fitted_side(side, longer) <= MAX_RESOLUTION,
        fitted_side(side, longer) == 1 || (2 * (fitted_side(side, longer) * longer) - longer <= 2
            * (side * MAX_RESOLUTION) < 2 * (fitted_side(side, longer) * longer) + longer),
{
    let a = 2 * (side * MAX_RESOLUTION) + longer;
    let d = 2 * longer;
    let q = a / d;
    vstd::arithmetic::div_mod::lemma_fundamental_div_mod(a, d);
    vstd::arithmetic::div_mod::lemma_mod_bound(a, d);
    assert(side * MAX_RESOLUTION <= longer * MAX_RESOLUTION) by (nonlinear_arith)
        requires
            0 <= side <= longer,
    ;
    assert(a < d * 1921) by (nonlinear_arith)
        requires
            a == 2 * (side * MAX_RESOLUTION) + longer,
            d == 2 * longer,
            side * MAX_RESOLUTION <= longer * MAX_RESOLUTION,
            MAX_RESOLUTION == 1920,
            longer >= 1,
    ;
    vstd::arithmetic::div_mod::lemma_multiply_divide_lt(a, d, 1921);
    assert(d * q == 2 * (q * longer)) by (nonlinear_arith)
        requires
            d == 2 * longer,
    ;
}

/// The capture as the blur receives it. A capture within the cap keeps its
/// size; a larger one is downscaled with the Catmull-Rom kernel to
/// [`capped_width`] by [`capped_height`]. Either is then reduced to
/// intensities.
pub open spec fn downscaled_gray(input: Raster) -> Raster {
    let width = capped_width(input.width as int, input.height as int);
    let height = capped_height(input.width as int, input.height as int);
    if is_within_cap(input.width as int, input.height as int) {
        Raster { width: input.width, height: input.height, samples: luma(input) }
    } else {
        Raster {
            width: width as nat,
            height: height as nat,
            samples: luma(
                Raster {
                    width: width as nat,
                    height: height as nat,
                    samples: stretched(
                        input,
                        width as u32,
                        height as u32,
                        ResampleFilter::CatmullRom,
                    ),
                },
            ),
        }
    }
}

/// Computes [`fitted_side`].
pub fn fit_side(side: u32, longer: u32) -> (out: u32)
    requires
        side <= longer,
        1 <= longer,
    ensures
        out == fitted_side(side as int, longer as int),
        1 <= out <= MAX_RESOLUTION,
{
    proof {
        lemma_fitted_side(side as int, longer as int);
        assert(side * MAX_RESOLUTION <= 0xffff_ffff * 1920) by (nonlinear_arith)
            requires
                0 <= side <= 0xffff_ffff,
                MAX_RESOLUTION == 1920,
        ;
    }
    let rounded: u64 = (2 * ((side as u64) * (MAX_RESOLUTION as u64)) + longer as u64) / (2 * (
    longer as u64));
    if rounded < 1 {
        1
    } else {
        rounded as u32
    }
}

/// The first half of preprocessing: brings a capture that exceeds the cap
/// down to it, keeping its aspect ratio, and converts it to intensities. A
/// capture within the cap keeps its size.
pub fn downscale_to_gray(input: &ColorImage) -> (out: GrayImage)
    requires
        input.wf(),
        input.width < RESAMPLING_LIMIT,
        input.height < RESAMPLING_LIMIT,
        16 * (input.width * MAX_RESOLUTION) <= isize::MAX,
    ensures
        out.wf(),
        out@ == downscaled_gray(input@),
        out.width == capped_width(input.width as int, input.height as int),
        out.height == capped_height(input.width as int, input.height as int),
        out.width <= MAX_RESOLUTION,
        out.height <= MAX_RESOLUTION,
{
    if input.width <= MAX_RESOLUTION && input.height <= MAX_RESOLUTION {
        return to_luma(input);
    }
    let (width, height): (u32, u32) = if input.width >= input.height {
        (MAX_RESOLUTION, fit_side(input.height, input.width))
    } else {
        (fit_side(input.width, input.height), MAX_RESOLUTION)
    };
    assert(input.width * height <= input.width * MAX_RESOLUTION) by (nonlinear_arith)
        requires
            0 <= input.width,
            0 <= height <= MAX_RESOLUTION,
    ;
    assert(width * height <= 1920 * 1920) by (nonlinear_arith)
        requires
            0 <= width <= 1920,
            0 <= height <= 1920,
    ;
    let scaled = resize_exact(input, width, height, ResampleFilter::CatmullRom);
    to_luma(&scaled)
}

/// The sample that binarization gives a blurred intensity: background where
/// the intensity is above the threshold, text everywhere else.
pub open spec fn binarized_level(level: u32) -> u8 {
    if greater(level, BACKGROUND_ABOVE) {
        BACKGROUND
    } else {
        FOREGROUND
    }
}

/// The binarized image of a grid of blurred intensities.
pub open spec fn binarized(width: u32, height: u32, levels: Seq<u32>) -> Raster {
    Raster {
        width: width as nat,
        height: height as nat,
        samples: Seq::new(levels.len(), |i: int| binarized_level(levels[i])),
    }
}

/// The second half of preprocessing: thresholds blurred intensities, given as
/// single-precision bit patterns in row-major order, so that text becomes
/// bright on a dark background. `None` unless there is one intensity for each
/// pixel.
pub fn binarize(width: u32, height: u32, levels: &Vec<u32>) -> (out: Option<GrayImage>)
    ensures
        out is Some <==> levels@.len() == width * height,
        out matches Some(image) ==> image.wf() && image@ == binarized(width, height, levels@),
{
    let mut pixels: Vec<u8> = Vec::new();
    let mut i: usize = 0;
    while i < levels.len()
        invariant
            i <= levels.len(),
            pixels@.len() == i,
            forall|k: int| 0 <= k < i ==> pixels@[k] == binarized_level(levels@[k]),
        decreases levels.len() - i,
    {
        let sample = if exceeds(levels[i], BACKGROUND_ABOVE) {
            BACKGROUND
        } else {
            FOREGROUND
        };
        pixels.push(sample);
        i += 1;
    }
    proof {
        assert(pixels@ =~= binarized(width, height, levels@).samples);
    }
    GrayImage::from_raw(width, height, pixels)
}

/// Preprocessing is repeatable: the same capture gives the blur the same
/// image, the same blurred intensities give the same binarized image, and
/// every sample of a binarized image is foreground or background.
pub proof fn lemma_preprocessing_is_repeatable(
    first: Raster,
    second: Raster,
    width: u32,
    height: u32,
    levels: Seq<u32>,
    again: Seq<u32>,
)
    requires
        first == second,
        levels == again,
    ensures
        downscaled_gray(first) == downscaled_gray(second),
        binarized(width, height, levels) == binarized(width, height, again),
        forall|i: int|
            0 <= i < levels.len() ==> #[trigger] binarized(width, height, levels).samples[i]
                == FOREGROUND || binarized(width, height, levels).samples[i] == BACKGROUND,
{
}

/// The least multiple of [`PADDLE_OCR_MULTIPLIER`] that is not below `n`.
pub open spec fn aligned(n: int) -> int {
    (n + 31) / 32 * 32
}

/// Computes [`aligned`].
pub fn align_to_stride(n: u32) -> (out: u32)
    requires
        n + 31 <= u32::MAX,
    ensures
        out == aligned(n as int),
        n <= out < n + PADDLE_OCR_MULTIPLIER,
        out % PADDLE_OCR_MULTIPLIER == 0,
{
    (n + (PADDLE_OCR_MULTIPLIER - 1)) / PADDLE_OCR_MULTIPLIER * PADDLE_OCR_MULTIPLIER
}

/// The sample at `(x, y)` of an image that was padded with background on the
/// right and below.
pub open spec fn padded_sample(image: Raster, x: int, y: int) -> u8 {
    if x < image.width && y < image.height {
        image.gray_at(x, y)
    } else {
        BACKGROUND
    }
}

/// The image padded with background on the right and below until both sides
/// are multiples of [`PADDLE_OCR_MULTIPLIER`].
pub open spec fn padded_image(image: Raster) -> Raster {
    let width = aligned(image.width as int);
    let height = aligned(image.height as int);
    Raster {
        width: width as nat,
        height: height as nat,
        samples: Seq::new(
            (width * height) as nat,
            |k: int| padded_sample(image, k % width, k / width),
        ),
    }
}

/// The detector's input for a preprocessed image, before normalization: the
/// samples of the padded image, once for each of the three channels.
pub open spec fn detector_input(image: Raster) -> Seq<u8> {
    padded_image(image).samples + padded_image(image).samples + padded_image(image).samples
}

/// Pads an image with background pixels on the right and below until both
/// sides are multiples of [`PADDLE_OCR_MULTIPLIER`].
pub fn pad_to_stride(image: &GrayImage) -> (out: GrayImage)
    requires
        image.wf(),
        image.width + 31 <= u32::MAX,
        image.height + 31 <= u32::MAX,
        aligned(image.width as int) * aligned(image.height as int) <= usize::MAX,
    ensures
        out.wf(),
        out@ == padded_image(image@),
        out.width == aligned(image.width as int),
        out.height == aligned(image.height as int),
        forall|x: int, y: int|
            0 <= x < out.width && 0 <= y < out.height ==> #[trigger] out@.gray_at(x, y)
                == padded_sample(image@, x, y),
{
    let width = align_to_stride(image.width);
    let height = align_to_stride(image.height);
    let total: usize = (width as usize) * (height as usize);
    let mut pixels: Vec<u8> = Vec::new();
    let mut i: usize = 0;
    while i < total
        invariant
            image.wf(),
            i <= total,
            total == width * height,
            width >= image.width,
            height >= image.height,
            pixels@.len() == i,
            forall|k: int|
                0 <= k < i ==> pixels@[k] == padded_sample(image@, k % (width as int), k / (
                width as int)),
        decreases total - i,
    {
        assert(width > 0) by (nonlinear_arith)
            requires
                i < width * height,
                width >= 0,
        ;
        let x: u32 = (i % (width as usize)) as u32;
        let y: u32 = (i / (width as usize)) as u32;
        proof {
            vstd::arithmetic::div_mod::lemma_multiply_divide_lt(i as int, width as int, height as int);
        }
        let sample = if x < image.width && y < image.height {
            image.get_pixel(x, y)
        } else {
            BACKGROUND
        };
        pixels.push(sample);
        i += 1;
    }
    let out = GrayImage { width, height, pixels };
    proof {
        assert(out.pixels@ =~= padded_image(image@).samples);
        assert forall|x: int, y: int| 0 <= x < out.width && 0 <= y < out.height implies #[trigger] out@.gray_at(
            x,
            y,
        ) == padded_sample(image@, x, y) by {
            lemma_pixel_index(x, y, width as int, height as int);
            vstd::arithmetic::div_mod::lemma_fundamental_div_mod_converse(
                y * width + x,
                width as int,
                y,
                x,
            );
        }
    }
    out
}

/// The detector's input: the samples of the padded image, once for each of
/// the three channels, channel after channel.
pub fn detector_planes(padded: &GrayImage) -> (out: Vec<u8>)
    requires
        3 * padded.pixels@.len() <= usize::MAX,
    ensures
        out@ == padded.pixels@ + padded.pixels@ + padded.pixels@,
{
    let n = padded.pixels.len();
    let mut planes: Vec<u8> = Vec::new();
    let mut i: usize = 0;
    while i < 3 * n
        invariant
            n == padded.pixels@.len(),
            3 * n <= usize::MAX,
            i <= 3 * n,
            planes@.len() == i,
            forall|k: int| 0 <= k < i ==> planes@[k] == padded.pixels@[k % (n as int)],
        decreases 3 * n - i,
    {
        planes.push(padded.pixels[i % n]);
        i += 1;
    }
    proof {
        let s = padded.pixels@;
        assert forall|k: int| 0 <= k < 3 * n implies planes@[k] == (s + s + s)[k] by {
            if k < n {
                vstd::arithmetic::div_mod::lemma_fundamental_div_mod_converse(k, n as int, 0, k);
            } else if k < 2 * n {
                vstd::arithmetic::div_mod::lemma_fundamental_div_mod_converse(k, n as int, 1, k - n);
            } else {
                vstd::arithmetic::div_mod::lemma_fundamental_div_mod_converse(
                    k,
                    n as int,
                    2,
                    k - 2 * n,
                );
            }
        }
        assert(planes@ =~= s + s + s);
    }
    planes
}

/// The probability 0.3, as a single-precision bit pattern: positions of the
/// heat-map that score above it are text.
pub const TEXT_ABOVE: u32 = 0x3e99_999a;

/// Whether a tensor of `count` scores with the given shape is a heat-map: one
/// batch, one channel, then the rows and the columns.
pub open spec fn is_heatmap(shape: Seq<i64>, count: nat) -> bool {
    &&& shape.len() == 4
    &&& shape[0] == 1
    &&& shape[1] == 1
    &&& 0 <= shape[2] <= u32::MAX
    &&& 0 <= shape[3] <= u32::MAX
    &&& count == shape[2] * shape[3]
}

/// The sample that the mask holds for a score.
pub open spec fn mask_level(score: u32) -> u8 {
    if greater(score, TEXT_ABOVE) {
        FOREGROUND
    } else {
        BACKGROUND
    }
}

/// The mask of a heat-map.
pub open spec fn mask_of(shape: Seq<i64>, scores: Seq<u32>) -> Raster {
    Raster {
        width: shape[3] as nat,
        height: shape[2] as nat,
        samples: Seq::new(scores.len(), |i: int| mask_level(scores[i])),
    }
}

/// Thresholds a heat-map, given as single-precision bit patterns in row-major
/// order: positions that score above [`TEXT_ABOVE`] become foreground. An
/// inference error where the tensor is not a heat-map.
pub fn threshold_scores(shape: &Vec<i64>, scores: &Vec<u32>) -> (out: Result<GrayImage, Error>)
    ensures
        match out {
            Ok(mask) => is_heatmap(shape@, scores@.len()) && mask.wf() && mask@ == mask_of(
                shape@,
                scores@,
            ),
            Err(e) => e is Inference && !is_heatmap(shape@, scores@.len()),
        },
{
    if shape.len() != 4 || shape[0] != 1 || shape[1] != 1 || shape[2] < 0 || shape[2] > 0xffff_ffff
        || shape[3] < 0 || shape[3] > 0xffff_ffff {
        return Err(Error::Inference(String::from_str("the detector's output is not a heat-map")));
    }
    let height: u32 = shape[2] as u32;
    let width: u32 = shape[3] as u32;
    let mut pixels: Vec<u8> = Vec::new();
    let mut i: usize = 0;
    while i < scores.len()
        invariant
            i <= scores.len(),
            pixels@.len() == i,
            forall|k: int| 0 <= k < i ==> pixels@[k] == mask_level(scores@[k]),
        decreases scores.len() - i,
    {
        let sample = if exceeds(scores[i], TEXT_ABOVE) {
            FOREGROUND
        } else {
            BACKGROUND
        };
        pixels.push(sample);
        i += 1;
    }
    proof {
        assert(pixels@ =~= mask_of(shape@, scores@).samples);
    }
    match GrayImage::from_raw(width, height, pixels) {
        Some(mask) => Ok(mask),
        None => Err(
            Error::Inference(String::from_str("the heat-map does not hold one score per position")),
        ),
    }
}

/// The borders of the foreground regions of a mask, as
/// `imageproc::contours::find_contours` lists them.
pub uninterp spec fn contours(mask: Raster) -> Seq<Seq<Point>>;

/// Whether border following can run on a mask of `count` positions: its
/// labels are 32-bit signed numbers, one for each position.
pub open spec fn is_traceable(count: int) -> bool {
    count < i32::MAX && 4 * count <= isize::MAX
}

/// `imageproc::contours::find_contours` with 32-bit unsigned coordinates.
/// Trusted: the result is the list named by [`contours`]. The size limit
/// keeps the function's label counter and its label buffer in range.
#[verifier::external_body]
pub(crate) fn find_contours(mask: &GrayImage) -> (out: Vec<Vec<Point>>)
    requires
        mask.wf(),
        is_traceable(mask.width * mask.height),
    ensures
        outlines(out@) == contours(mask@),
{
    let image = image::GrayImage::from_raw(mask.width, mask.height, mask.pixels.clone()).unwrap();
    imageproc::contours::find_contours::<u32>(&image)
        .into_iter()
        .map(|c| c.points.into_iter().map(|p| Point { x: p.x, y: p.y }).collect())
        .collect()
}

/// The regions that detection finds in a heat-map.
pub open spec fn detected(shape: Seq<i64>, scores: Seq<u32>, scale: Scale) -> Seq<Region> {
    regions(contours(mask_of(shape, scores)), scale)
}

/// Whether no position of the heat-map scores above [`TEXT_ABOVE`].
pub open spec fn is_blank(scores: Seq<u32>) -> bool {
    forall|i: int| 0 <= i < scores.len() ==> !greater(#[trigger] scores[i], TEXT_ABOVE)
}

/// Whether a mask has no foreground position.
pub fn is_blank_mask(mask: &GrayImage) -> (out: bool)
    ensures
        out == forall|i: int| 0 <= i < mask.pixels@.len() ==> #[trigger] mask.pixels@[i] == BACKGROUND,
{
    let mut i: usize = 0;
    while i < mask.pixels.len()
        invariant
            i <= mask.pixels.len(),
            forall|k: int| 0 <= k < i ==> #[trigger] mask.pixels@[k] == BACKGROUND,
        decreases mask.pixels.len() - i,
    {
        if mask.pixels[i] != BACKGROUND {
            return false;
        }
        i += 1;
    }
    true
}

/// What detection returns for a heat-map.
///
/// An inference error where the tensor is not a heat-map. No box where no
/// position scores above the threshold. Otherwise a post-processing error
/// where the heat-map is too large for border following, or where a padded
/// region does not fit the coordinates of a box; and else one box for each
/// detected region, without text and in the order of the borders.
pub open spec fn is_detection(
    scale: Scale,
    shape: Seq<i64>,
    scores: Seq<u32>,
    out: Result<Vec<OcrBox>, Error>,
) -> bool {
    if !is_heatmap(shape, scores.len()) {
        out matches Err(e) && e is Inference
    } else if is_blank(scores) {
        out matches Ok(boxes) && boxes@.len() == 0
    } else if !is_traceable(scores.len() as int) || !all_fit(detected(shape, scores, scale)) {
        out matches Err(e) && e is PostProcessing
    } else {
        out matches Ok(boxes) && are_blank_boxes(boxes@, detected(shape, scores, scale))
    }
}

/// Detection after the network has run: thresholds the heat-map, follows the
/// borders of its foreground regions, and turns each border into a box in
/// pixels of the capture, as [`is_detection`] says.
pub fn detect(scale: &Scale, shape: &Vec<i64>, scores: &Vec<u32>) -> (out: Result<
    Vec<OcrBox>,
    Error,
>)
    requires
        scale.wf(),
    ensures
        is_detection(*scale, shape@, scores@, out),
{
    let mask = match threshold_scores(shape, scores) {
        Ok(mask) => mask,
        Err(e) => {
            return Err(e);
        },
    };
    proof {
        assert forall|i: int| 0 <= i < scores@.len() implies (#[trigger] mask.pixels@[i]
            == BACKGROUND) == !greater(scores@[i], TEXT_ABOVE) by {}
    }
    if is_blank_mask(&mask) {
        proof {
            assert forall|i: int| 0 <= i < scores@.len() implies !greater(
                #[trigger] scores@[i],
                TEXT_ABOVE,
            ) by {
                assert(mask.pixels@[i] == BACKGROUND);
            }
        }
        return Ok(Vec::new());
    }
    proof {
        if is_blank(scores@) {
            assert forall|i: int| 0 <= i < mask.pixels@.len() implies #[trigger] mask.pixels@[i]
                == BACKGROUND by {
                assert(!greater(scores@[i], TEXT_ABOVE));
            }
        }
    }
    let count = scores.len();
    if count >= 0x7fff_ffff || count > (isize::MAX as usize) / 4 {
        return Err(Error::PostProcessing(String::from_str("the heat-map is too large")));
    }
    let found = find_contours(&mask);
    boxes_from_contours(&found, scale)
}

/// A heat-map whose foreground has a single border yields exactly one box,
/// the padded, rescaled extent of that border, where the rescaled extent is
/// large enough to be kept and the border lies where a pass finds it: less
/// than 32 positions beyond the side of the downscaled capture along which
/// the factor is taken, the capture being within the limit of resampling.
pub proof fn lemma_one_border_one_box(
    scale: Scale,
    shape: Seq<i64>,
    scores: Seq<u32>,
    border: Seq<Point>,
    out: Result<Vec<OcrBox>, Error>,
)
    requires
        scale.wf(),
        scale.numerator < RESAMPLING_LIMIT,
        is_heatmap(shape, scores.len()),
        !is_blank(scores),
        is_traceable(scores.len() as int),
        contours(mask_of(shape, scores)) == seq![border],
        forall|i: int|
            0 <= i < border.len() ==> (#[trigger] border[i]).x < scale.denominator + 32
                && border[i].y < scale.denominator + 32,
        is_kept(rescaled(extent_of(border), scale)),
        is_detection(scale, shape, scores, out),
    ensures
        out matches Ok(boxes) && boxes@.len() == 1 && boxes@[0].region() == padded(
            rescaled(extent_of(border), scale),
        ) && boxes@[0].text@ == Seq::<char>::empty(),
{
    lemma_one_contour_one_region(border, scale);
    lemma_near_region_fits(border, scale);
}

} // verus!
