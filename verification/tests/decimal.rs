use lro::decimal::{format_decimal, parse_decimal};
use lro::text::{bytes_eq, clone_bytes, str_eq};

#[test]
fn numerals_are_written_without_padding() {
    assert_eq!(format_decimal(0), "0");
    assert_eq!(format_decimal(7), "7");
    assert_eq!(format_decimal(10), "10");
    assert_eq!(format_decimal(1234567890), "1234567890");
    assert_eq!(format_decimal(u64::MAX), "18446744073709551615");
}

#[test]
fn numerals_are_read_back() {
    assert_eq!(parse_decimal("0"), Some(0));
    assert_eq!(parse_decimal("9"), Some(9));
    assert_eq!(parse_decimal("42"), Some(42));
    assert_eq!(parse_decimal("1000000"), Some(1_000_000));
    assert_eq!(parse_decimal("18446744073709551615"), Some(u64::MAX));
    for n in [0u64, 1, 9, 10, 99, 100, 65535, 4294967296, u64::MAX - 1] {
        assert_eq!(parse_decimal(&format_decimal(n)), Some(n));
    }
}

#[test]
fn texts_that_are_no_numerals_are_refused() {
    assert_eq!(parse_decimal(""), None);
    assert_eq!(parse_decimal("00"), None);
    assert_eq!(parse_decimal("007"), None);
    assert_eq!(parse_decimal("+1"), None);
    assert_eq!(parse_decimal("-1"), None);
    assert_eq!(parse_decimal("1 "), None);
    assert_eq!(parse_decimal("1a"), None);
    assert_eq!(parse_decimal("a1"), None);
    assert_eq!(parse_decimal("1.5"), None);
    assert_eq!(parse_decimal("\u{0661}"), None);
}

#[test]
fn numbers_beyond_64_bits_are_refused() {
    assert_eq!(parse_decimal("18446744073709551616"), None);
    assert_eq!(parse_decimal("18446744073709551620"), None);
    assert_eq!(parse_decimal("99999999999999999999"), None);
    assert_eq!(parse_decimal("100000000000000000000000000"), None);
}

#[test]
fn strings_compare_by_their_characters() {
    assert!(str_eq("", ""));
    assert!(str_eq("operations/1", "operations/1"));
    assert!(!str_eq("operations/1", "operations/2"));
    assert!(!str_eq("operations/1", "operations/10"));
    assert!(str_eq("gr\u{00fc}n", "gr\u{00fc}n"));
    assert!(!str_eq("gr\u{00fc}n", "grun"));
}

#[test]
fn bytes_compare_and_copy() {
    let a = vec![1u8, 2, 3];
    let b = clone_bytes(&a);
    assert_eq!(a, b);
    assert!(bytes_eq(&a, &b));
    assert!(!bytes_eq(&a, &vec![1u8, 2]));
    assert!(!bytes_eq(&a, &vec![1u8, 2, 4]));
    assert!(bytes_eq(&Vec::new(), &Vec::new()));
}
