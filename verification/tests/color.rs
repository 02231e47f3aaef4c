use zenith_scene::color::{Color, parse_srgb_hex};

#[test]
fn parses_lowercase_rrggbb() {
    let c = parse_srgb_hex("#f8fafc").expect("#f8fafc must parse");
    assert_eq!(c.r, 0xf8);
    assert_eq!(c.g, 0xfa);
    assert_eq!(c.b, 0xfc);
    assert_eq!(c.a, 255);
}

#[test]
fn parses_uppercase_rrggbb() {
    let c = parse_srgb_hex("#AABBCC").expect("#AABBCC must parse");
    assert_eq!(c.r, 0xAA);
    assert_eq!(c.g, 0xBB);
    assert_eq!(c.b, 0xCC);
    assert_eq!(c.a, 255);
}

#[test]
fn parses_rrggbbaa() {
    let c = parse_srgb_hex("#11223344").expect("#11223344 must parse");
    assert_eq!(c.r, 0x11);
    assert_eq!(c.g, 0x22);
    assert_eq!(c.b, 0x33);
    assert_eq!(c.a, 0x44);
}

#[test]
fn rejects_invalid_hex() {
    assert!(parse_srgb_hex("#xyz").is_none());
}

#[test]
fn rejects_missing_hash() {
    assert!(parse_srgb_hex("aabbcc").is_none());
}

#[test]
fn rejects_too_short() {
    assert!(parse_srgb_hex("#aabb").is_none());
}

#[test]
fn rejects_too_long() {
    assert!(parse_srgb_hex("#aabbccddee").is_none());
}

#[test]
fn rejects_empty() {
    assert!(parse_srgb_hex("").is_none());
}

#[test]
fn rejects_seven_digits_and_a_bad_digit_in_each_pair() {
    assert!(parse_srgb_hex("#aabbccd").is_none());
    assert!(parse_srgb_hex("#gabbcc").is_none());
    assert!(parse_srgb_hex("#aabgcc").is_none());
    assert!(parse_srgb_hex("#aabbcg").is_none());
    assert!(parse_srgb_hex("#aabbccgg").is_none());
    assert!(parse_srgb_hex("#").is_none());
    assert!(parse_srgb_hex("##aabbcc").is_none());
}

#[test]
fn rejects_non_ascii_bytes() {
    // A multi-byte character makes the byte length wrong or a digit invalid.
    assert!(parse_srgb_hex("#aabbcé").is_none());
    assert!(parse_srgb_hex("#aabbccé").is_none());
}

#[test]
fn digit_boundaries_decode_exactly() {
    assert_eq!(parse_srgb_hex("#000000"), Some(Color::srgb(0, 0, 0, 255)));
    assert_eq!(parse_srgb_hex("#ffffff00"), Some(Color::srgb(255, 255, 255, 0)));
    assert_eq!(parse_srgb_hex("#09afAF"), Some(Color::srgb(0x09, 0xaf, 0xaf, 255)));
    assert_eq!(parse_srgb_hex("#9a0F"), None);
}

#[test]
fn case_of_hex_digits_does_not_matter() {
    assert_eq!(parse_srgb_hex("#AbCdEf12"), parse_srgb_hex("#abcdef12"));
    assert_eq!(parse_srgb_hex("#ABCDEF"), parse_srgb_hex("#abcdef"));
}

#[test]
fn six_digits_equal_eight_with_opaque_alpha() {
    assert_eq!(parse_srgb_hex("#123456"), parse_srgb_hex("#123456ff"));
    assert_eq!(parse_srgb_hex("#123456"), parse_srgb_hex("#123456FF"));
}
