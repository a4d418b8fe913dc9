use screen_ocr::raster::{ColorImage, GrayImage};

#[test]
fn gray_buffer_must_hold_one_sample_per_pixel() {
    assert!(GrayImage::from_raw(3, 2, vec![0; 6]).is_some());
    assert_eq!(GrayImage::from_raw(3, 2, vec![0; 5]), None);
    assert_eq!(GrayImage::from_raw(3, 2, vec![0; 7]), None);
    assert!(GrayImage::from_raw(0, 9, Vec::new()).is_some());
    assert_eq!(GrayImage::from_raw(u32::MAX, u32::MAX, vec![0; 1]), None);
}

#[test]
fn color_buffer_must_hold_three_samples_per_pixel() {
    assert!(ColorImage::from_raw(3, 2, vec![0; 18]).is_some());
    assert_eq!(ColorImage::from_raw(3, 2, vec![0; 6]), None);
    assert_eq!(ColorImage::from_raw(3, 2, vec![0; 19]), None);
    assert_eq!(ColorImage::from_raw(u32::MAX, u32::MAX, vec![0; 3]), None);
}

#[test]
fn pixels_are_read_row_by_row() {
    let image = GrayImage::from_raw(3, 2, vec![10, 20, 30, 40, 50, 60]).unwrap();
    assert_eq!(image.get_pixel(0, 0), 10);
    assert_eq!(image.get_pixel(2, 0), 30);
    assert_eq!(image.get_pixel(0, 1), 40);
    assert_eq!(image.get_pixel(2, 1), 60);
}
