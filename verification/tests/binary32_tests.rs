use screen_ocr::binary32::{exceeds, total_order_key};

fn samples() -> Vec<f32> {
    vec![
        0.0,
        -0.0,
        1.0,
        -1.0,
        0.3,
        0.300_000_04,
        0.299_999_97,
        153.0,
        153.000_02,
        152.999_98,
        255.0,
        f32::MIN_POSITIVE,
        -f32::MIN_POSITIVE,
        1.0e-45,
        -1.0e-45,
        f32::MAX,
        f32::MIN,
        f32::INFINITY,
        f32::NEG_INFINITY,
        f32::NAN,
        -f32::NAN,
    ]
}

#[test]
fn exceeds_agrees_with_the_numeric_comparison() {
    for a in samples() {
        for b in samples() {
            assert_eq!(exceeds(a.to_bits(), b.to_bits()), a > b, "{a} > {b}");
        }
    }
}

#[test]
fn exceeds_is_false_for_nan_on_either_side() {
    assert!(!exceeds(f32::NAN.to_bits(), 0.0f32.to_bits()));
    assert!(!exceeds(1.0f32.to_bits(), f32::NAN.to_bits()));
    assert!(!exceeds(0x7fc0_0001, 0x7f80_0000));
}

#[test]
fn zeros_do_not_exceed_each_other() {
    assert!(!exceeds(0x0000_0000, 0x8000_0000));
    assert!(!exceeds(0x8000_0000, 0x0000_0000));
}

#[test]
fn total_order_key_agrees_with_total_cmp() {
    for a in samples() {
        for b in samples() {
            let by_key = total_order_key(a.to_bits()).cmp(&total_order_key(b.to_bits()));
            assert_eq!(by_key, a.total_cmp(&b), "{a} against {b}");
        }
    }
}

#[test]
fn total_order_key_has_exact_values() {
    assert_eq!(total_order_key(0), 0);
    assert_eq!(total_order_key(0x8000_0000), -1);
    assert_eq!(total_order_key(0x3f80_0000), 0x3f80_0000);
    assert_eq!(total_order_key(0xbf80_0000), -0x3f80_0001);
    assert_eq!(total_order_key(0xffff_ffff), -0x8000_0000);
}
