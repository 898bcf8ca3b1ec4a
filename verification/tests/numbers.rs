use bookmark_enricher::numbers::{i64_to_string, parse_i64, u64_to_string};

#[test]
fn renders_decimals() {
    assert_eq!(u64_to_string(0), "0");
    assert_eq!(u64_to_string(7), "7");
    assert_eq!(u64_to_string(1700000000), "1700000000");
    assert_eq!(i64_to_string(0), "0");
    assert_eq!(i64_to_string(42), "42");
    assert_eq!(i64_to_string(-7), "-7");
    assert_eq!(i64_to_string(i64::MAX), "9223372036854775807");
    assert_eq!(i64_to_string(i64::MIN), "-9223372036854775808");
}

#[test]
fn parses_decimals() {
    assert_eq!(parse_i64("0"), Some(0));
    assert_eq!(parse_i64("123"), Some(123));
    assert_eq!(parse_i64("+42"), Some(42));
    assert_eq!(parse_i64("-42"), Some(-42));
    assert_eq!(parse_i64("-0"), Some(0));
    assert_eq!(parse_i64("9223372036854775807"), Some(i64::MAX));
    assert_eq!(parse_i64("-9223372036854775808"), Some(i64::MIN));
}

#[test]
fn rejects_bad_decimals() {
    assert_eq!(parse_i64(""), None);
    assert_eq!(parse_i64("+"), None);
    assert_eq!(parse_i64("-"), None);
    assert_eq!(parse_i64("abc"), None);
    assert_eq!(parse_i64("12a"), None);
    assert_eq!(parse_i64(" 12"), None);
    assert_eq!(parse_i64("1.5"), None);
    assert_eq!(parse_i64("9223372036854775808"), None);
    assert_eq!(parse_i64("-9223372036854775809"), None);
    assert_eq!(parse_i64("99999999999999999999999"), None);
}

#[test]
fn print_parse_round_trip() {
    for v in [0i64, 1, -1, 1700000000, i64::MIN, i64::MAX] {
        assert_eq!(parse_i64(&i64_to_string(v)), Some(v));
    }
}
