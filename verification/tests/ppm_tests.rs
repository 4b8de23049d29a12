use lane_render::ppm::{ppm_header, ppm_image, u32_to_decimal};

#[test]
fn decimal_digits_most_significant_first() {
    assert_eq!(u32_to_decimal(0), b"0".to_vec());
    assert_eq!(u32_to_decimal(7), b"7".to_vec());
    assert_eq!(u32_to_decimal(10), b"10".to_vec());
    assert_eq!(u32_to_decimal(800), b"800".to_vec());
    assert_eq!(u32_to_decimal(4294967295), b"4294967295".to_vec());
}

#[test]
fn header_matches_reference_line() {
    assert_eq!(ppm_header(800, 600), b"P6 800 600 255\n".to_vec());
    assert_eq!(ppm_header(602, 1), b"P6 602 1 255\n".to_vec());
}

#[test]
fn image_is_header_then_raw_bytes() {
    let pixels = vec![1u8, 2, 3, 4, 5, 6];
    let img = ppm_image(2, 1, &pixels);
    let mut expected = b"P6 2 1 255\n".to_vec();
    expected.extend_from_slice(&pixels);
    assert_eq!(img, expected);
}
