use fdb::fixed::{add_sat, channel_byte, fixed_text, round_to_i32, trunc_to_i32, trunc_to_u32};
use fdb::text::{
    chars_of, contains_text, eq_ignore_ascii_case, i64_text, lower_ascii, string_of, text_eq,
    u64_text,
};

#[test]
fn decimal_text_drops_trailing_zeros() {
    assert_eq!(fixed_text(24_000_000), "24");
    assert_eq!(fixed_text(24_500_000), "24.5");
    assert_eq!(fixed_text(-1_250_000), "-1.25");
    assert_eq!(fixed_text(-250_000), "-0.25");
    assert_eq!(fixed_text(0), "0");
    assert_eq!(fixed_text(1), "0.000001");
    assert_eq!(fixed_text(i64::MIN), "-9223372036854.775808");
}

#[test]
fn rounding_goes_half_away_from_zero() {
    assert_eq!(round_to_i32(2_500_000), 3);
    assert_eq!(round_to_i32(2_499_999), 2);
    assert_eq!(round_to_i32(-2_500_000), -3);
    assert_eq!(round_to_i32(-2_499_999), -2);
    assert_eq!(round_to_i32(0), 0);
    assert_eq!(round_to_i32(10_000_000_000_000_000), i32::MAX);
    assert_eq!(round_to_i32(-10_000_000_000_000_000), i32::MIN);
}

#[test]
fn truncation_goes_toward_zero_and_saturates() {
    assert_eq!(trunc_to_i32(2_700_000), 2);
    assert_eq!(trunc_to_i32(-2_700_000), -2);
    assert_eq!(trunc_to_i32(i64::MAX), i32::MAX);
    assert_eq!(trunc_to_i32(i64::MIN), i32::MIN);
    assert_eq!(trunc_to_u32(-5_000_000), 0);
    assert_eq!(trunc_to_u32(449_999_999), 449);
    assert_eq!(trunc_to_u32(i64::MAX), u32::MAX);
}

#[test]
fn channels_scale_to_bytes() {
    assert_eq!(channel_byte(1_000_000), 255);
    assert_eq!(channel_byte(500_000), 128);
    assert_eq!(channel_byte(0), 0);
    assert_eq!(channel_byte(-1_000_000), 0);
    assert_eq!(channel_byte(3_000_000), 255);
}

#[test]
fn sums_saturate() {
    assert_eq!(add_sat(1, 2), 3);
    assert_eq!(add_sat(i64::MAX, 1), i64::MAX);
    assert_eq!(add_sat(i64::MIN, -1), i64::MIN);
}

#[test]
fn integer_texts() {
    assert_eq!(u64_text(0), "0");
    assert_eq!(u64_text(u64::MAX), "18446744073709551615");
    assert_eq!(i64_text(-42), "-42");
    assert_eq!(i64_text(i64::MIN), "-9223372036854775808");
    assert_eq!(i64_text(7), "7");
}

#[test]
fn text_helpers() {
    assert_eq!(string_of(&chars_of("héllo")), "héllo");
    assert!(text_eq("abc", "abc"));
    assert!(!text_eq("abc", "abd"));
    assert!(contains_text("figma api 429 Too Many Requests", "429"));
    assert!(!contains_text("figma api 500", "429"));
    assert!(contains_text("x", ""));
    assert!(eq_ignore_ascii_case("SiTe", "site"));
    assert!(!eq_ignore_ascii_case("Ü", "ü"));
    assert_eq!(lower_ascii('Q'), 'q');
    assert_eq!(lower_ascii('Ä'), 'Ä');
}
