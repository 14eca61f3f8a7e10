use serde_with::number::{format_i64, parse_i64, parse_u32, parse_u64, pow10_u32};
use serde_with::utils::{fraction_nanos, size_hint_cautious, SecondsStrError};

#[test]
fn parse_unsigned_like_from_str_radix() {
    assert_eq!(parse_u64("0"), Some(0));
    assert_eq!(parse_u64("+17"), Some(17));
    assert_eq!(parse_u64("18446744073709551615"), Some(u64::MAX));
    assert_eq!(parse_u64("18446744073709551616"), None);
    assert_eq!(parse_u64(""), None);
    assert_eq!(parse_u64("+"), None);
    assert_eq!(parse_u64("-1"), None);
    assert_eq!(parse_u64("12a"), None);
    assert_eq!(parse_u32("4294967295"), Some(u32::MAX));
    assert_eq!(parse_u32("4294967296"), None);
    for s in ["0", "+5", "-5", "", "+", "99999999999", "1x", "000123"] {
        assert_eq!(parse_u32(s), u32::from_str_radix(s, 10).ok(), "{}", s);
        assert_eq!(parse_u64(s), u64::from_str_radix(s, 10).ok(), "{}", s);
    }
}

#[test]
fn parse_signed_like_from_str_radix() {
    assert_eq!(parse_i64("-9223372036854775808"), Some(i64::MIN));
    assert_eq!(parse_i64("9223372036854775807"), Some(i64::MAX));
    assert_eq!(parse_i64("9223372036854775808"), None);
    assert_eq!(parse_i64("-9223372036854775809"), None);
    assert_eq!(parse_i64("-0"), Some(0));
    assert_eq!(parse_i64("-"), None);
    for s in ["0", "+5", "-5", "", "+", "-", "--1", "+-1", "1-", "-86000"] {
        assert_eq!(parse_i64(s), i64::from_str_radix(s, 10).ok(), "{}", s);
    }
}

#[test]
fn format_like_display() {
    for v in [0i64, 1, -1, 10, -86000, 1478563200, i64::MAX, i64::MIN] {
        let s = format_i64(v);
        assert_eq!(s, v.to_string());
        assert_eq!(parse_i64(&s), Some(v));
    }
}

#[test]
fn fraction_digits_to_nanos() {
    assert_eq!(fraction_nanos("5"), Ok(500_000_000));
    assert_eq!(fraction_nanos("123"), Ok(123_000_000));
    assert_eq!(fraction_nanos("000000001"), Ok(1));
    assert_eq!(fraction_nanos("999999999"), Ok(999_999_999));
    assert_eq!(fraction_nanos("1234567891"), Err(SecondsStrError::TooPrecise));
    assert_eq!(fraction_nanos(""), Err(SecondsStrError::InvalidValue));
    assert_eq!(fraction_nanos("1a"), Err(SecondsStrError::InvalidValue));
    // A leading `+` is read by `from_str_radix` and counts as a place.
    assert_eq!(fraction_nanos("+5"), Ok(50_000_000));
    assert_eq!(pow10_u32(0), 1);
    assert_eq!(pow10_u32(9), 1_000_000_000);
}

#[test]
fn size_hint_is_capped() {
    assert_eq!(size_hint_cautious(None), 0);
    assert_eq!(size_hint_cautious(Some(7)), 7);
    assert_eq!(size_hint_cautious(Some(4096)), 4096);
    assert_eq!(size_hint_cautious(Some(100_000)), 4096);
}
