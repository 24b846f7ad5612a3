use location_tracker::decimal::{parse_u64, u64_to_decimal};
use location_tracker::file::stem;

#[test]
fn parse_accepts_digits_and_plus() {
    assert_eq!(parse_u64("0"), Some(0));
    assert_eq!(parse_u64("1500"), Some(1500));
    assert_eq!(parse_u64("+42"), Some(42));
    assert_eq!(parse_u64("007"), Some(7));
    assert_eq!(parse_u64("18446744073709551615"), Some(u64::MAX));
}

#[test]
fn parse_rejects_other_text() {
    assert_eq!(parse_u64(""), None);
    assert_eq!(parse_u64("+"), None);
    assert_eq!(parse_u64("-1"), None);
    assert_eq!(parse_u64("12a"), None);
    assert_eq!(parse_u64(" 1"), None);
    assert_eq!(parse_u64("18446744073709551616"), None);
    assert_eq!(parse_u64("99999999999999999999999"), None);
}

#[test]
fn decimal_spelling() {
    assert_eq!(u64_to_decimal(0), "0");
    assert_eq!(u64_to_decimal(9), "9");
    assert_eq!(u64_to_decimal(10), "10");
    assert_eq!(u64_to_decimal(1500), "1500");
    assert_eq!(u64_to_decimal(u64::MAX), "18446744073709551615");
    for n in [0u64, 1, 42, 1000, 123456789, u64::MAX] {
        assert_eq!(parse_u64(&u64_to_decimal(n)), Some(n));
    }
}

#[test]
fn stem_is_text_before_first_dot() {
    assert_eq!(stem("1500.json"), "1500");
    assert_eq!(stem("1.2.3"), "1");
    assert_eq!(stem("plain"), "plain");
    assert_eq!(stem(".hidden"), "");
    assert_eq!(stem(""), "");
    assert_eq!(stem("é.json"), "é");
}
