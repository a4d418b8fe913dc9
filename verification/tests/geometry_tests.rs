use screen_ocr::error::Error;
use screen_ocr::geometry::{
    bounding_extent, boxes_from_contours, pad, region_box, rescale, Extent, Point, Rect, Scale,
};
use screen_ocr::models::OcrBox;

fn blank(x: i32, y: i32, width: i32, height: i32) -> OcrBox {
    OcrBox { text: String::new(), x, y, width, height }
}

fn outline(min_x: u32, min_y: u32, max_x: u32, max_y: u32) -> Vec<Point> {
    vec![
        Point { x: min_x, y: min_y },
        Point { x: max_x, y: min_y },
        Point { x: max_x, y: max_y },
        Point { x: min_x, y: max_y },
    ]
}

#[test]
fn scale_is_taken_along_the_longer_side_of_the_downscaled_image() {
    assert_eq!(
        Scale::between(2000, 1000, 1000, 500),
        Some(Scale { numerator: 2000, denominator: 1000 })
    );
    assert_eq!(
        Scale::between(1000, 2000, 500, 1000),
        Some(Scale { numerator: 2000, denominator: 1000 })
    );
    assert_eq!(
        Scale::between(640, 640, 1920, 1920),
        Some(Scale { numerator: 640, denominator: 1920 })
    );
}

#[test]
fn scale_of_an_empty_image_is_none() {
    assert_eq!(Scale::between(100, 100, 0, 0), None);
    assert_eq!(Scale::between(100, 100, 0, 5), Some(Scale { numerator: 100, denominator: 5 }));
}

#[test]
fn apply_rounds_up() {
    let thirds = Scale { numerator: 1, denominator: 3 };
    assert_eq!(thirds.apply(0), 0);
    assert_eq!(thirds.apply(1), 1);
    assert_eq!(thirds.apply(3), 1);
    assert_eq!(thirds.apply(4), 2);
    let four_thirds = Scale { numerator: 2560, denominator: 1920 };
    assert_eq!(four_thirds.apply(3), 4);
    assert_eq!(four_thirds.apply(10), 14);
    let widest = Scale { numerator: u32::MAX, denominator: 1 };
    assert_eq!(widest.apply(u32::MAX), 18_446_744_065_119_617_025);
}

#[test]
fn extent_holds_every_position() {
    let points = vec![
        Point { x: 7, y: 9 },
        Point { x: 3, y: 12 },
        Point { x: 5, y: 2 },
        Point { x: 11, y: 4 },
    ];
    assert_eq!(bounding_extent(&points), Extent { min_x: 3, max_x: 11, min_y: 2, max_y: 12 });
    assert_eq!(
        bounding_extent(&vec![Point { x: 4, y: 6 }]),
        Extent { min_x: 4, max_x: 4, min_y: 6, max_y: 6 }
    );
}

#[test]
fn extent_of_no_position_is_inverted() {
    assert_eq!(
        bounding_extent(&Vec::new()),
        Extent { min_x: u32::MAX, max_x: 0, min_y: u32::MAX, max_y: 0 }
    );
}

#[test]
fn mask_coordinates_rescale_before_padding() {
    let scale = Scale::between(2000, 1200, 1000, 600).unwrap();
    let extent = Extent { min_x: 10, max_x: 30, min_y: 10, max_y: 30 };
    assert_eq!(rescale(&extent, &scale), Some(Rect { x: 20, y: 20, width: 40, height: 40 }));
}

#[test]
fn rescale_of_an_inverted_extent_is_none() {
    let scale = Scale { numerator: 1, denominator: 1 };
    let extent = Extent { min_x: u32::MAX, max_x: 0, min_y: u32::MAX, max_y: 0 };
    assert_eq!(rescale(&extent, &scale), None);
}

#[test]
fn wide_region_is_padded_along_its_width() {
    // shorter side 10: padding ceil(22) - 10 = 12
    let core = Rect { x: 100, y: 50, width: 40, height: 10 };
    assert_eq!(pad(&core), Ok(Some(blank(88, 44, 64, 22))));
}

#[test]
fn tall_region_is_padded_along_its_height() {
    // shorter side 10: padding 12, half of it to the left and to the right
    let core = Rect { x: 100, y: 100, width: 10, height: 30 };
    assert_eq!(pad(&core), Ok(Some(blank(94, 88, 22, 54))));
}

#[test]
fn square_region_is_padded_as_a_wide_one() {
    // shorter side 40: padding 88 - 40 = 48
    let core = Rect { x: 200, y: 200, width: 40, height: 40 };
    assert_eq!(pad(&core), Ok(Some(blank(152, 176, 136, 88))));
}

#[test]
fn padding_rounds_up() {
    // shorter side 7: 15.4 rounds up to 16, padding 9, half of it 4
    let core = Rect { x: 50, y: 50, width: 7, height: 9 };
    assert_eq!(pad(&core), Ok(Some(blank(46, 41, 16, 27))));
    // shorter side 115: 253 exactly, padding 138
    let core = Rect { x: 1000, y: 1000, width: 300, height: 115 };
    assert_eq!(pad(&core), Ok(Some(blank(862, 931, 576, 253))));
}

#[test]
fn padded_corner_stops_at_the_origin() {
    let core = Rect { x: 20, y: 20, width: 40, height: 40 };
    assert_eq!(pad(&core), Ok(Some(blank(0, 0, 136, 88))));
}

#[test]
fn small_regions_are_dropped() {
    assert_eq!(pad(&Rect { x: 10, y: 10, width: 5, height: 50 }), Ok(None));
    assert_eq!(pad(&Rect { x: 10, y: 10, width: 50, height: 5 }), Ok(None));
    assert_eq!(pad(&Rect { x: 10, y: 10, width: 0, height: 0 }), Ok(None));
    assert!(matches!(pad(&Rect { x: 10, y: 10, width: 6, height: 6 }), Ok(Some(_))));
}

#[test]
fn region_beyond_the_coordinate_range_is_an_error() {
    let far = Rect { x: 3_000_000_000, y: 10, width: 40, height: 40 };
    assert!(matches!(pad(&far), Err(Error::PostProcessing(_))));
    let wide = Rect { x: 0, y: 0, width: 2_000_000_000, height: 2_000_000_000 };
    assert!(matches!(pad(&wide), Err(Error::PostProcessing(_))));
    let edge = Rect { x: 0, y: 0, width: 0x7fff_fff0, height: 10 };
    assert!(matches!(pad(&edge), Err(Error::PostProcessing(_))));
    let last = Rect { x: 0x7fff_ffff + 12, y: 6, width: 40, height: 10 };
    assert_eq!(pad(&last), Ok(Some(blank(0x7fff_ffff, 0, 64, 22))));
}

#[test]
fn region_box_rescales_pads_and_filters() {
    let scale = Scale { numerator: 2000, denominator: 1000 };
    // extent (10, 30, 10, 30) doubles to (20, 20, 40, 40), padding 48
    assert_eq!(region_box(&outline(10, 10, 30, 30), &scale), Ok(Some(blank(0, 0, 136, 88))));
    // extent 2 wide doubles to 4: dropped
    assert_eq!(region_box(&outline(10, 10, 12, 30), &scale), Ok(None));
    assert_eq!(region_box(&Vec::new(), &scale), Ok(None));
}

#[test]
fn boxes_keep_the_order_of_the_contours() {
    let scale = Scale { numerator: 1, denominator: 1 };
    let contours = vec![
        outline(300, 300, 340, 310),
        outline(5, 5, 6, 6),
        outline(100, 100, 110, 130),
        Vec::new(),
        outline(500, 50, 540, 60),
    ];
    assert_eq!(
        boxes_from_contours(&contours, &scale),
        Ok(vec![blank(288, 294, 64, 22), blank(94, 88, 22, 54), blank(488, 44, 64, 22)])
    );
    assert_eq!(boxes_from_contours(&Vec::new(), &scale), Ok(Vec::new()));
}

#[test]
fn one_region_out_of_range_fails_the_list() {
    let scale = Scale { numerator: u32::MAX, denominator: 1 };
    let contours = vec![outline(0, 0, 0, 0), outline(10, 10, 30, 30)];
    assert!(matches!(boxes_from_contours(&contours, &scale), Err(Error::PostProcessing(_))));
}
