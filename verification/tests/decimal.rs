use stickyboard::decimal::{i64_decimal, parse_i64_str, u64_digits};

fn s(v: Vec<char>) -> String {
    v.into_iter().collect()
}

#[test]
fn writes_integers() {
    assert_eq!(s(i64_decimal(0)), "0");
    assert_eq!(s(i64_decimal(42)), "42");
    assert_eq!(s(i64_decimal(-7)), "-7");
    assert_eq!(s(i64_decimal(i64::MIN)), "-9223372036854775808");
    assert_eq!(s(i64_decimal(i64::MAX)), "9223372036854775807");
    assert_eq!(s(u64_digits(u64::MAX)), "18446744073709551615");
}

#[test]
fn reads_integers() {
    assert_eq!(parse_i64_str("12"), Some(12));
    assert_eq!(parse_i64_str("+12"), Some(12));
    assert_eq!(parse_i64_str("-12"), Some(-12));
    assert_eq!(parse_i64_str("007"), Some(7));
    assert_eq!(parse_i64_str("-9223372036854775808"), Some(i64::MIN));
    assert_eq!(parse_i64_str("9223372036854775807"), Some(i64::MAX));
    assert_eq!(parse_i64_str("9223372036854775808"), None);
    assert_eq!(parse_i64_str("-9223372036854775809"), None);
    assert_eq!(parse_i64_str(""), None);
    assert_eq!(parse_i64_str("-"), None);
    assert_eq!(parse_i64_str("+"), None);
    assert_eq!(parse_i64_str(" 1"), None);
    assert_eq!(parse_i64_str("1x"), None);
    assert_eq!(parse_i64_str("--1"), None);
}

#[test]
fn reading_back_what_is_written() {
    for n in [0i64, 1, -1, 9, 10, -10, 123456789, i64::MIN, i64::MAX] {
        assert_eq!(parse_i64_str(&s(i64_decimal(n))), Some(n));
        assert_eq!(n.to_string(), s(i64_decimal(n)));
    }
}
