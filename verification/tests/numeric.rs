use ble::UNIT;
use ble::util::parse_u8;
use ble::util::rescale;
use ble::util::str_eq;
use ble::util::u32_to_string;
use ble::util::unit_to_decimal;

#[test]
fn rescale_maps_range_endpoints_exactly() {
    assert_eq!(rescale(0, 255, UNIT), 0);
    assert_eq!(rescale(255, 255, UNIT), UNIT);
    assert_eq!(rescale(UNIT, UNIT, 255), 255);
    assert_eq!(rescale(1, 2, 100), 50);
}

#[test]
fn rescale_rounds_down() {
    // 128/255 of one unit, truncated.
    assert_eq!(rescale(128, 255, UNIT), 501960);
    assert_eq!(rescale(1, 3, 100), 33);
}

#[test]
fn decimal_rendering_is_exact() {
    assert_eq!(u32_to_string(0), "0");
    assert_eq!(u32_to_string(7), "7");
    assert_eq!(u32_to_string(65535), "65535");
    assert_eq!(u32_to_string(1000000), "1000000");
}

#[test]
fn fixed_point_rendering_has_six_fraction_digits() {
    assert_eq!(unit_to_decimal(0), "0.000000");
    assert_eq!(unit_to_decimal(1), "0.000001");
    assert_eq!(unit_to_decimal(UNIT / 2), "0.500000");
    assert_eq!(unit_to_decimal(UNIT), "1.000000");
}

#[test]
fn byte_parse_accepts_digit_strings_in_range() {
    assert_eq!(parse_u8("0"), Some(0));
    assert_eq!(parse_u8("42"), Some(42));
    assert_eq!(parse_u8("255"), Some(255));
    assert_eq!(parse_u8("007"), Some(7));
}

#[test]
fn byte_parse_rejects_out_of_range_and_non_digits() {
    assert_eq!(parse_u8(""), None);
    assert_eq!(parse_u8("256"), None);
    assert_eq!(parse_u8("99999999999999999999"), None);
    assert_eq!(parse_u8("12a"), None);
    assert_eq!(parse_u8("-1"), None);
    assert_eq!(parse_u8("+1"), None);
}

#[test]
fn string_equality_is_by_characters() {
    assert!(str_eq("lamp", "lamp"));
    assert!(!str_eq("lamp", "lamq"));
    assert!(!str_eq("lamp", "lam"));
    assert!(str_eq("", ""));
}
