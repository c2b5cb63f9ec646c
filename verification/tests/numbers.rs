use browser_engine::html_parse::{
    is_control, is_excluded_name, is_valid_attr_name, is_valid_attr_value, is_valid_tag_name,
    is_whitespace,
};
use browser_engine::num::{half, parse_str_units, pct_of, sat_add, sat_sub};

#[test]
fn saturating_addition_and_subtraction() {
    assert_eq!(sat_add(2, 3), 5);
    assert_eq!(sat_add(i64::MAX, 1), i64::MAX);
    assert_eq!(sat_add(i64::MIN, -1), i64::MIN);
    assert_eq!(sat_sub(2, 3), -1);
    assert_eq!(sat_sub(i64::MIN, 1), i64::MIN);
    assert_eq!(sat_sub(i64::MAX, -1), i64::MAX);
}

#[test]
fn halving_truncates_toward_zero() {
    assert_eq!(half(5), 2);
    assert_eq!(half(-5), -2);
    assert_eq!(half(4), 2);
    assert_eq!(half(i64::MIN), i64::MIN / 2);
}

#[test]
fn percent_of_base() {
    // 50% of 200 is 100, in thousandths throughout.
    assert_eq!(pct_of(50_000, 200_000), 100_000);
    assert_eq!(pct_of(-50_000, 200_000), -100_000);
    assert_eq!(pct_of(0, 123_456), 0);
}

#[test]
fn string_number_parsing() {
    assert_eq!(parse_str_units("10"), 10_000);
    assert_eq!(parse_str_units("2.5"), 2_500);
    assert_eq!(parse_str_units("-3"), -3_000);
    assert_eq!(parse_str_units("10."), 10_000);
    // Fraction digits beyond the third are truncated.
    assert_eq!(parse_str_units("1.2345"), 1_234);
    // Anything that is not a plain decimal reads as zero.
    assert_eq!(parse_str_units("abc"), 0);
    assert_eq!(parse_str_units("1e3"), 0);
    assert_eq!(parse_str_units(""), 0);
    assert_eq!(parse_str_units("-"), 0);
}

#[test]
fn markup_character_classes() {
    assert!(is_valid_tag_name('a'));
    assert!(is_valid_tag_name('Z'));
    assert!(is_valid_tag_name('7'));
    assert!(!is_valid_tag_name('-'));
    assert!(is_whitespace(' ') && is_whitespace('\n') && !is_whitespace('x'));
    assert!(is_control('\u{7F}') && is_control('\u{01}') && !is_control('a'));
    assert!(is_excluded_name('=') && is_excluded_name('/') && !is_excluded_name('x'));
    assert!(is_valid_attr_name('x') && !is_valid_attr_name('>'));
    assert!(is_valid_attr_value('x') && !is_valid_attr_value('`'));
}
