// Tests for the decimal formatting and parsing helpers used by the
// system-information handlers.

use rustwebui_app::numfmt::{format_timestamp, parse_mem_value_kb, parse_u64, u64_to_string};

#[test]
fn test_format_timestamp_zero() {
    assert_eq!(format_timestamp(0), "0");
}

#[test]
fn test_format_timestamp_value() {
    assert_eq!(format_timestamp(1234567890), "1234567890");
}

#[test]
fn test_format_timestamp_max() {
    assert_eq!(format_timestamp(u64::MAX), "18446744073709551615");
}

#[test]
fn test_u64_to_string_round_trip() {
    for n in [0u64, 1, 9, 10, 99, 100, 4096, u64::MAX - 1, u64::MAX] {
        assert_eq!(parse_u64(&u64_to_string(n)), Some(n));
    }
}

#[test]
fn test_parse_u64_plain() {
    assert_eq!(parse_u64("0"), Some(0));
    assert_eq!(parse_u64("16384"), Some(16384));
    assert_eq!(parse_u64("18446744073709551615"), Some(u64::MAX));
}

#[test]
fn test_parse_u64_plus_sign() {
    assert_eq!(parse_u64("+123"), Some(123));
    assert_eq!(parse_u64("+"), None);
}

#[test]
fn test_parse_u64_rejects() {
    assert_eq!(parse_u64(""), None);
    assert_eq!(parse_u64("12a"), None);
    assert_eq!(parse_u64("-5"), None);
    assert_eq!(parse_u64(" 12"), None);
    assert_eq!(parse_u64("18446744073709551616"), None);
}

#[test]
fn test_parse_mem_value_kb_present() {
    assert_eq!(parse_mem_value_kb(Some("16326548")), 16326548);
}

#[test]
fn test_parse_mem_value_kb_fallbacks() {
    assert_eq!(parse_mem_value_kb(None), 0);
    assert_eq!(parse_mem_value_kb(Some("not a number")), 0);
    assert_eq!(parse_mem_value_kb(Some("99999999999999999999999")), 0);
}
