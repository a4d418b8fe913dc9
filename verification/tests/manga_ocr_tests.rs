use image::imageops::FilterType;
use image::{DynamicImage, RgbImage};
use screen_ocr::error::Error;
use screen_ocr::ocr::manga_ocr::{
    argmax, encoder_planes, text_of, to_planes, DecodeStatus, TokenSequence, END_TOKEN_ID,
    MAX_LENGTH, START_TOKEN_ID,
};
use screen_ocr::raster::ColorImage;

fn bits(values: &[f32]) -> Vec<u32> {
    values.iter().map(|v| v.to_bits()).collect()
}

/// Logits for `positions` tokens over a vocabulary of `vocabulary` entries,
/// with the greatest logit of the last row at `best`.
fn logits(positions: usize, vocabulary: usize, best: usize) -> (Vec<i64>, Vec<u32>) {
    let mut values = vec![-1.0f32; positions * vocabulary];
    for row in 0..positions {
        values[row * vocabulary + (row + 1) % vocabulary] = 9.0;
    }
    let last = (positions - 1) * vocabulary;
    for entry in &mut values[last..last + vocabulary] {
        *entry = -1.0;
    }
    values[last + best] = 5.0;
    (vec![1, positions as i64, vocabulary as i64], bits(&values))
}

fn gradient(width: u32, height: u32) -> ColorImage {
    let mut pixels = Vec::new();
    for y in 0..height {
        for x in 0..width {
            pixels.push(((x * 5 + y) % 256) as u8);
            pixels.push(((x + y * 9) % 256) as u8);
            pixels.push(((x * y + 17) % 256) as u8);
        }
    }
    ColorImage::from_raw(width, height, pixels).unwrap()
}

#[test]
fn planes_group_the_samples_by_channel() {
    let image = ColorImage::from_raw(2, 2, vec![1, 2, 3, 4, 5, 6, 7, 8, 9, 10, 11, 12]).unwrap();
    assert_eq!(to_planes(&image), vec![1, 4, 7, 10, 2, 5, 8, 11, 3, 6, 9, 12]);
    let empty = ColorImage::from_raw(0, 3, Vec::new()).unwrap();
    assert_eq!(to_planes(&empty), Vec::<u8>::new());
}

#[test]
fn encoder_input_is_the_resized_region_by_channel() {
    let region = gradient(90, 40);
    let planes = encoder_planes(&region);
    let buffer = RgbImage::from_raw(90, 40, region.pixels.clone()).unwrap();
    let resized = DynamicImage::ImageRgb8(buffer).resize_exact(224, 224, FilterType::Triangle).to_rgb8();
    assert_eq!(planes.len(), 3 * 224 * 224);
    for (x, y, pixel) in resized.enumerate_pixels() {
        for c in 0..3usize {
            let at = c * 224 * 224 + (y as usize) * 224 + x as usize;
            assert_eq!(planes[at], pixel[c], "channel {c} at {x}, {y}");
        }
    }
}

#[test]
fn encoder_input_of_an_exact_square_keeps_the_samples() {
    let region = gradient(224, 224);
    let planes = encoder_planes(&region);
    assert_eq!(planes, to_planes(&region));
}

#[test]
fn argmax_takes_the_greatest_logit() {
    let values = bits(&[0.5, -2.0, 7.25, 3.0, 7.0]);
    assert_eq!(argmax(&values, 0, 5), 2);
    assert_eq!(argmax(&values, 3, 5), 1);
    assert_eq!(argmax(&values, 1, 2), 0);
}

#[test]
fn argmax_takes_the_first_of_equal_logits() {
    let values = bits(&[1.0, 4.0, 4.0, 4.0, 2.0]);
    assert_eq!(argmax(&values, 0, 5), 1);
    assert_eq!(argmax(&bits(&[-3.0, -3.0]), 0, 2), 0);
}

#[test]
fn argmax_orders_nan_and_zeros_by_the_total_order() {
    assert_eq!(argmax(&bits(&[1.0, f32::NAN, 2.0]), 0, 3), 1);
    assert_eq!(argmax(&bits(&[1.0, -f32::NAN, 2.0]), 0, 3), 2);
    assert_eq!(argmax(&bits(&[-0.0, 0.0, -0.0]), 0, 3), 1);
    assert_eq!(argmax(&bits(&[f32::NEG_INFINITY, f32::INFINITY, f32::MAX]), 0, 3), 1);
}

#[test]
fn sequence_opens_with_the_start_token() {
    let tokens = TokenSequence::new();
    assert_eq!(tokens.ids, vec![START_TOKEN_ID]);
    assert_eq!(tokens.status(), DecodeStatus::Decoding);
    assert_eq!(tokens.generated(), Vec::<u32>::new());
}

#[test]
fn step_appends_the_selected_token() {
    let mut tokens = TokenSequence::new();
    let (shape, values) = logits(1, 6, 3);
    assert_eq!(tokens.step(&shape, &values), Ok(DecodeStatus::Decoding));
    assert_eq!(tokens.ids, vec![2, 3]);
    let (shape, values) = logits(2, 6, 4);
    assert_eq!(tokens.step(&shape, &values), Ok(DecodeStatus::Decoding));
    assert_eq!(tokens.ids, vec![2, 3, 4]);
    assert_eq!(tokens.generated(), vec![3, 4]);
}

#[test]
fn step_reads_the_last_row_only() {
    let mut tokens = TokenSequence { ids: vec![2, 5, 5] };
    let values = bits(&[9.0, 0.0, 0.0, 0.0, 9.0, 0.0, 1.0, 2.0, 1.5]);
    assert_eq!(tokens.step(&vec![1, 3, 3], &values), Ok(DecodeStatus::Decoding));
    assert_eq!(tokens.ids, vec![2, 5, 5, 1]);
}

#[test]
fn end_token_ends_the_sequence() {
    let mut tokens = TokenSequence::new();
    let (shape, values) = logits(1, 6, 5);
    assert_eq!(tokens.step(&shape, &values), Ok(DecodeStatus::Decoding));
    let (shape, values) = logits(2, 6, END_TOKEN_ID as usize);
    assert_eq!(tokens.step(&shape, &values), Ok(DecodeStatus::Done));
    assert_eq!(tokens.ids, vec![2, 5, 2]);
    assert_eq!(tokens.status(), DecodeStatus::Done);
    let (shape, values) = logits(3, 6, 4);
    assert_eq!(tokens.step(&shape, &values), Ok(DecodeStatus::Done));
    assert_eq!(tokens.ids, vec![2, 5, 2]);
}

#[test]
fn decoding_stops_at_the_cap_without_an_end_token() {
    let mut tokens = TokenSequence::new();
    let mut runs = 0;
    loop {
        let (shape, values) = logits(tokens.ids.len(), 6, 4);
        runs += 1;
        match tokens.step(&shape, &values).unwrap() {
            DecodeStatus::Decoding => assert!(runs < MAX_LENGTH),
            status => {
                assert_eq!(status, DecodeStatus::Capped);
                break;
            }
        }
    }
    assert_eq!(runs, MAX_LENGTH - 1);
    assert_eq!(tokens.ids.len(), MAX_LENGTH);
    assert_eq!(tokens.ids[0], START_TOKEN_ID);
    assert!(tokens.ids[1..].iter().all(|id| *id == 4));
    let (shape, values) = logits(MAX_LENGTH, 6, 4);
    assert_eq!(tokens.step(&shape, &values), Ok(DecodeStatus::Capped));
    assert_eq!(tokens.ids.len(), MAX_LENGTH);
}

#[test]
fn end_token_at_the_cap_counts_as_done() {
    let mut ids = vec![START_TOKEN_ID];
    ids.extend(std::iter::repeat(4).take(MAX_LENGTH - 2));
    let mut tokens = TokenSequence { ids };
    let (shape, values) = logits(MAX_LENGTH - 1, 6, END_TOKEN_ID as usize);
    assert_eq!(tokens.step(&shape, &values), Ok(DecodeStatus::Done));
    assert_eq!(tokens.ids.len(), MAX_LENGTH);
}

#[test]
fn malformed_logits_are_an_inference_error() {
    let values = bits(&[0.0; 12]);
    for shape in [
        vec![1, 2, 6],
        vec![2, 1, 6],
        vec![1, 1, 6, 1],
        vec![1, 6],
        vec![1, 1, 0],
        vec![1, 1, 11],
        vec![1, 1, 13],
        vec![1, 1, -12],
        vec![],
    ] {
        let mut tokens = TokenSequence::new();
        assert!(matches!(tokens.step(&shape, &values), Err(Error::Inference(_))), "{shape:?}");
        assert_eq!(tokens.ids, vec![START_TOKEN_ID]);
    }
    let mut tokens = TokenSequence::new();
    assert_eq!(tokens.step(&vec![1, 1, 12], &values), Ok(DecodeStatus::Decoding));
}

#[test]
fn tokenizer_reads_the_ids_after_the_start_token() {
    assert_eq!(TokenSequence { ids: vec![2, 3, 4, 2] }.generated(), vec![3, 4, 2]);
    assert_eq!(TokenSequence { ids: vec![2, 5] }.generated(), vec![5]);
    assert_eq!(TokenSequence { ids: vec![2, 0xffff_ffff] }.generated(), vec![u32::MAX]);
}

#[test]
fn tokenizer_failure_becomes_a_tokenizer_error() {
    assert_eq!(text_of(Ok("abc".to_string())), Ok("abc".to_string()));
    assert_eq!(
        text_of(Err("no such id".to_string())),
        Err(Error::Tokenizer("no such id".to_string()))
    );
}
