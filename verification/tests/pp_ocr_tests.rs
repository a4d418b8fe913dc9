use image::imageops::FilterType;
use image::{DynamicImage, RgbImage};
use screen_ocr::error::Error;
use screen_ocr::geometry::Scale;
use screen_ocr::models::OcrBox;
use screen_ocr::ocr::pp_ocr::{
    align_to_stride, binarize, detect, detector_planes, downscale_to_gray, fit_side,
    is_blank_mask, pad_to_stride, threshold_scores,
};
use screen_ocr::raster::{ColorImage, GrayImage};

fn gradient(width: u32, height: u32) -> ColorImage {
    let mut pixels = Vec::new();
    for y in 0..height {
        for x in 0..width {
            pixels.push(((x * 7 + y * 3) % 256) as u8);
            pixels.push(((x * 2 + y * 11) % 256) as u8);
            pixels.push(((x * y) % 256) as u8);
        }
    }
    ColorImage::from_raw(width, height, pixels).unwrap()
}

fn reference_gray(input: &ColorImage, width: u32, height: u32) -> image::GrayImage {
    let buffer = RgbImage::from_raw(input.width, input.height, input.pixels.clone()).unwrap();
    DynamicImage::ImageRgb8(buffer).resize_exact(width, height, FilterType::CatmullRom).to_luma8()
}

fn reference_luma(input: &ColorImage) -> image::GrayImage {
    let buffer = RgbImage::from_raw(input.width, input.height, input.pixels.clone()).unwrap();
    DynamicImage::ImageRgb8(buffer).to_luma8()
}

fn bits(values: &[f32]) -> Vec<u32> {
    values.iter().map(|v| v.to_bits()).collect()
}

fn heatmap(width: usize, height: usize, blobs: &[(usize, usize, usize, usize)]) -> Vec<u32> {
    let mut scores = vec![0.05f32.to_bits(); width * height];
    for &(left, top, right, bottom) in blobs {
        for y in top..=bottom {
            for x in left..=right {
                scores[y * width + x] = 0.9f32.to_bits();
            }
        }
    }
    scores
}

fn blank(x: i32, y: i32, width: i32, height: i32) -> OcrBox {
    OcrBox { text: String::new(), x, y, width, height }
}

const UNIT: Scale = Scale { numerator: 1, denominator: 1 };

#[test]
fn large_capture_is_capped_and_reduced_to_intensities() {
    let input = gradient(2400, 1200);
    let gray = downscale_to_gray(&input);
    assert_eq!((gray.width, gray.height), (1920, 960));
    assert_eq!(gray.pixels, reference_gray(&input, 1920, 960).into_raw());
    assert_ne!(gray.pixels, reference_luma(&input).into_raw());
}

#[test]
fn tall_capture_beyond_the_cap_keeps_its_aspect_ratio() {
    let input = gradient(500, 2000);
    let gray = downscale_to_gray(&input);
    assert_eq!((gray.width, gray.height), (480, 1920));
    assert_eq!(gray.pixels, reference_gray(&input, 480, 1920).into_raw());
}

#[test]
fn capture_within_the_cap_keeps_its_size() {
    let input = gradient(64, 48);
    let gray = downscale_to_gray(&input);
    assert_eq!((gray.width, gray.height), (64, 48));
    assert_eq!(gray.pixels, reference_luma(&input).into_raw());
    let edge = gradient(1920, 3);
    let gray = downscale_to_gray(&edge);
    assert_eq!((gray.width, gray.height), (1920, 3));
    assert_eq!(gray.pixels, reference_luma(&edge).into_raw());
}

#[test]
fn white_capture_within_the_cap_is_binarized_to_background() {
    let input = ColorImage::from_raw(64, 64, vec![255; 3 * 64 * 64]).unwrap();
    let gray = downscale_to_gray(&input);
    assert_eq!((gray.width, gray.height), (64, 64));
    assert!(gray.pixels.iter().all(|p| *p == 255));
    let levels: Vec<u32> = gray.pixels.iter().map(|p| (*p as f32).to_bits()).collect();
    let binary = binarize(64, 64, &levels).unwrap();
    assert_eq!(binary, GrayImage { width: 64, height: 64, pixels: vec![0; 64 * 64] });
}

#[test]
fn empty_capture_stays_empty() {
    let input = ColorImage::from_raw(0, 7, Vec::new()).unwrap();
    assert_eq!(downscale_to_gray(&input), GrayImage { width: 0, height: 7, pixels: Vec::new() });
}

#[test]
fn shorter_side_is_rounded_to_the_nearest_pixel() {
    assert_eq!(fit_side(1200, 2400), 960);
    assert_eq!(fit_side(1000, 3000), 640);
    assert_eq!(fit_side(1001, 3000), 641);
    assert_eq!(fit_side(999, 3000), 639);
    assert_eq!(fit_side(3, 3840), 2);
    assert_eq!(fit_side(1, 3840), 1);
    assert_eq!(fit_side(1, 400_000), 1);
    assert_eq!(fit_side(0, 5000), 1);
    assert_eq!(fit_side(5000, 5000), 1920);
    assert_eq!(fit_side(u32::MAX, u32::MAX), 1920);
    assert_eq!(fit_side(u32::MAX - 1, u32::MAX), 1920);
}

#[test]
fn preprocessing_is_repeatable() {
    let input = gradient(300, 200);
    let first = downscale_to_gray(&input);
    let second = downscale_to_gray(&input);
    assert_eq!(first, second);
    let levels: Vec<u32> = first.pixels.iter().map(|p| (*p as f32).to_bits()).collect();
    assert_eq!(
        binarize(first.width, first.height, &levels),
        binarize(second.width, second.height, &levels)
    );
}

#[test]
fn binarize_inverts_around_the_threshold() {
    let levels = bits(&[200.0, 100.0, 153.0, 153.000_02, 152.999_98, 0.0, 255.0, -3.0]);
    let image = binarize(4, 2, &levels).unwrap();
    assert_eq!((image.width, image.height), (4, 2));
    assert_eq!(image.pixels, vec![0, 255, 255, 0, 255, 255, 0, 255]);
}

#[test]
fn binarize_treats_nan_as_text_and_infinity_as_background() {
    let levels = bits(&[f32::NAN, f32::INFINITY, f32::NEG_INFINITY, -f32::NAN]);
    assert_eq!(binarize(2, 2, &levels).unwrap().pixels, vec![255, 0, 255, 255]);
}

#[test]
fn binarize_needs_one_level_per_pixel() {
    assert_eq!(binarize(2, 2, &bits(&[1.0, 2.0, 3.0])), None);
    assert_eq!(binarize(0, 5, &bits(&[1.0])), None);
    assert_eq!(
        binarize(0, 5, &Vec::new()),
        Some(GrayImage { width: 0, height: 5, pixels: Vec::new() })
    );
}

#[test]
fn sides_are_aligned_upwards() {
    assert_eq!(align_to_stride(0), 0);
    assert_eq!(align_to_stride(1), 32);
    assert_eq!(align_to_stride(31), 32);
    assert_eq!(align_to_stride(32), 32);
    assert_eq!(align_to_stride(33), 64);
    assert_eq!(align_to_stride(50), 64);
    assert_eq!(align_to_stride(1920), 1920);
    assert_eq!(align_to_stride(1919), 1920);
}

#[test]
fn padding_adds_background_on_the_right_and_below() {
    let image = GrayImage::from_raw(33, 2, vec![255; 66]).unwrap();
    let padded = pad_to_stride(&image);
    assert_eq!((padded.width, padded.height), (64, 32));
    assert_eq!(padded.pixels.len(), 64 * 32);
    for y in 0..32u32 {
        for x in 0..64u32 {
            let expected = if x < 33 && y < 2 { 255 } else { 0 };
            assert_eq!(padded.get_pixel(x, y), expected, "at {x}, {y}");
        }
    }
}

#[test]
fn padding_keeps_every_pixel_in_place() {
    let pixels: Vec<u8> = (0..35u32 * 3).map(|i| (i % 251) as u8 + 1).collect();
    let image = GrayImage::from_raw(35, 3, pixels).unwrap();
    let padded = pad_to_stride(&image);
    for y in 0..3u32 {
        for x in 0..35u32 {
            assert_eq!(padded.get_pixel(x, y), image.get_pixel(x, y));
        }
    }
}

#[test]
fn aligned_image_is_padded_to_itself() {
    let pixels: Vec<u8> = (0..32u32 * 64).map(|i| (i % 256) as u8).collect();
    let image = GrayImage::from_raw(32, 64, pixels).unwrap();
    assert_eq!(pad_to_stride(&image), image);
    let empty = GrayImage::from_raw(0, 0, Vec::new()).unwrap();
    assert_eq!(pad_to_stride(&empty), empty);
}

#[test]
fn detector_planes_repeat_the_channel_three_times() {
    let image = GrayImage::from_raw(2, 2, vec![1, 2, 3, 4]).unwrap();
    assert_eq!(detector_planes(&image), vec![1, 2, 3, 4, 1, 2, 3, 4, 1, 2, 3, 4]);
    let empty = GrayImage::from_raw(0, 0, Vec::new()).unwrap();
    assert_eq!(detector_planes(&empty), Vec::<u8>::new());
}

#[test]
fn scores_above_the_cutoff_become_foreground() {
    let scores = bits(&[0.31, 0.3, 0.29, 1.0, 0.0, 0.300_000_04]);
    let mask = threshold_scores(&vec![1, 1, 2, 3], &scores).unwrap();
    assert_eq!((mask.width, mask.height), (3, 2));
    assert_eq!(mask.pixels, vec![255, 0, 0, 255, 0, 255]);
}

#[test]
fn nan_scores_are_background() {
    let scores = bits(&[f32::NAN, -f32::NAN, f32::INFINITY, -1.0]);
    assert_eq!(threshold_scores(&vec![1, 1, 2, 2], &scores).unwrap().pixels, vec![0, 0, 255, 0]);
}

#[test]
fn malformed_heatmap_is_an_inference_error() {
    let scores = bits(&[0.5; 6]);
    for shape in [
        vec![1, 2, 3],
        vec![1, 1, 2, 3, 1],
        vec![2, 1, 2, 3],
        vec![1, 3, 2, 1],
        vec![1, 1, 3, 3],
        vec![1, 1, -2, -3],
        vec![1, 1, 6, 0x1_0000_0001],
        vec![],
    ] {
        assert!(matches!(threshold_scores(&shape, &scores), Err(Error::Inference(_))), "{shape:?}");
        assert!(matches!(detect(&UNIT, &shape, &scores), Err(Error::Inference(_))), "{shape:?}");
    }
}

#[test]
fn single_rectangle_yields_exactly_one_box() {
    let scores = heatmap(256, 128, &[(100, 50, 140, 60)]);
    let boxes = detect(&UNIT, &vec![1, 1, 128, 256], &scores).unwrap();
    // extent 40 by 10, padding 12: 12 left and right, 6 above and below
    assert_eq!(boxes, vec![blank(88, 44, 64, 22)]);
    let found = &boxes[0];
    assert!(found.x <= 100 && found.x + found.width >= 140);
    assert!(found.y <= 50 && found.y + found.height >= 60);
}

#[test]
fn rectangle_is_carried_into_the_capture() {
    let scores = heatmap(256, 128, &[(100, 50, 140, 60)]);
    let doubled = Scale::between(512, 256, 256, 128).unwrap();
    let boxes = detect(&doubled, &vec![1, 1, 128, 256], &scores).unwrap();
    // extent (200, 100) to (280, 120): 80 by 20, padding 24
    assert_eq!(boxes, vec![blank(176, 88, 128, 44)]);
}

#[test]
fn blank_heatmap_yields_no_box() {
    let scores = heatmap(64, 32, &[]);
    assert_eq!(detect(&UNIT, &vec![1, 1, 32, 64], &scores), Ok(Vec::new()));
    let at_cutoff = bits(&[0.3; 64 * 32]);
    assert_eq!(detect(&UNIT, &vec![1, 1, 32, 64], &at_cutoff), Ok(Vec::new()));
    assert_eq!(detect(&UNIT, &vec![1, 1, 0, 0], &Vec::new()), Ok(Vec::new()));
}

#[test]
fn mask_is_blank_without_a_foreground_position() {
    assert!(is_blank_mask(&GrayImage::from_raw(2, 2, vec![0; 4]).unwrap()));
    assert!(is_blank_mask(&GrayImage::from_raw(0, 0, Vec::new()).unwrap()));
    assert!(!is_blank_mask(&GrayImage::from_raw(2, 2, vec![0, 0, 0, 255]).unwrap()));
    assert!(!is_blank_mask(&GrayImage::from_raw(2, 2, vec![1, 0, 0, 0]).unwrap()));
}

#[test]
fn specks_are_dropped() {
    let scores = heatmap(64, 64, &[(10, 10, 14, 40), (30, 30, 30, 30)]);
    assert_eq!(detect(&UNIT, &vec![1, 1, 64, 64], &scores), Ok(Vec::new()));
}

#[test]
fn several_rectangles_come_in_scan_order() {
    let scores = heatmap(512, 256, &[(300, 20, 340, 30), (100, 100, 110, 130), (400, 200, 440, 210)]);
    let boxes = detect(&UNIT, &vec![1, 1, 256, 512], &scores).unwrap();
    assert_eq!(
        boxes,
        vec![blank(288, 14, 64, 22), blank(94, 88, 22, 54), blank(388, 194, 64, 22)]
    );
}

#[test]
fn region_out_of_range_is_a_post_processing_error() {
    let scores = heatmap(64, 64, &[(20, 20, 40, 40)]);
    let huge = Scale { numerator: u32::MAX, denominator: 1 };
    assert!(matches!(detect(&huge, &vec![1, 1, 64, 64], &scores), Err(Error::PostProcessing(_))));
}
