use ingest_csv::numbers::{i32_to_string, parse_i32, parse_micro, parse_micro_unsigned, parse_u64, u64_to_string};
use ingest_csv::text::{str_eq, str_le};

#[test]
fn parse_u64_exact_values() {
    assert_eq!(parse_u64("0"), Some(0));
    assert_eq!(parse_u64("123"), Some(123));
    assert_eq!(parse_u64("0042"), Some(42));
    assert_eq!(parse_u64(""), None);
    assert_eq!(parse_u64("12a"), None);
    assert_eq!(parse_u64("-3"), None);
    assert_eq!(parse_u64("18446744073709551615"), Some(u64::MAX));
    assert_eq!(parse_u64("18446744073709551616"), None);
}

#[test]
fn parse_i32_exact_values() {
    assert_eq!(parse_i32("7"), Some(7));
    assert_eq!(parse_i32("-7"), Some(-7));
    assert_eq!(parse_i32("2147483647"), Some(i32::MAX));
    assert_eq!(parse_i32("2147483648"), None);
    assert_eq!(parse_i32("-"), None);
    assert_eq!(parse_i32(""), None);
}

#[test]
fn parse_micro_exact_values() {
    assert_eq!(parse_micro_unsigned("28.35"), Some(28_350_000));
    assert_eq!(parse_micro_unsigned("0"), Some(0));
    assert_eq!(parse_micro_unsigned("5."), Some(5_000_000));
    assert_eq!(parse_micro_unsigned(".5"), Some(500_000));
    assert_eq!(parse_micro_unsigned("1.2345678"), Some(1_234_567));
    assert_eq!(parse_micro_unsigned("."), None);
    assert_eq!(parse_micro_unsigned("1.2.3"), None);
    assert_eq!(parse_micro_unsigned("abc"), None);
    assert_eq!(parse_micro("-1.5"), Some(-1_500_000));
    assert_eq!(parse_micro("150"), Some(150_000_000));
    assert_eq!(parse_micro("-"), None);
}

#[test]
fn integers_print_in_decimal() {
    assert_eq!(u64_to_string(0), "0");
    assert_eq!(u64_to_string(1234), "1234");
    assert_eq!(u64_to_string(u64::MAX), "18446744073709551615");
    assert_eq!(i32_to_string(0), "0");
    assert_eq!(i32_to_string(301), "301");
    assert_eq!(i32_to_string(-42), "-42");
    assert_eq!(i32_to_string(i32::MIN), "-2147483648");
}

#[test]
fn string_order_is_lexicographic() {
    assert!(str_le("apple", "apple"));
    assert!(str_le("apple", "apples"));
    assert!(!str_le("apples", "apple"));
    assert!(str_le("Apple", "apple"));
    assert!(str_le("", "a"));
    assert!(str_le("1", "10"));
    assert!(str_le("10", "9"));
    assert!(str_eq("same", "same"));
    assert!(!str_eq("same", "Same"));
}
