//! Splitting, parsing, and numeral-rendering tests.

use helix::decimal::i128_to_string;
use helix::decimal::parse_i32;
use helix::decimal::u128_to_string;
use helix::text::split_clauses;
use helix::text::split_fields;
use helix::text::str_eq;

#[test]
fn test_split_fields() {
    assert_eq!(vec!["llv", "krakenUSD", "2"], split_fields("llv:krakenUSD:2"));
    assert_eq!(vec!["a", "", "b"], split_fields("a::b"));
    assert_eq!(vec![""], split_fields(""));
}

#[test]
fn test_split_clauses() {
    assert_eq!(
        vec!["llv:krakenUSD:2", "hhv:coinbaseUSD:3"],
        split_clauses("llv:krakenUSD:2::hhv:coinbaseUSD:3")
    );
    assert_eq!(vec!["llv:krakenUSD:2"], split_clauses("llv:krakenUSD:2"));
    assert_eq!(vec!["a", ":b"], split_clauses("a:::b"));
}

#[test]
fn test_str_eq() {
    assert!(str_eq("hhv", "hhv"));
    assert!(!str_eq("hhv", "llv"));
    assert!(!str_eq("hhv", "hh"));
}

#[test]
fn test_parse_i32() {
    assert_eq!(Some(123), parse_i32("123"));
    assert_eq!(Some(123), parse_i32("0123"));
    assert_eq!(Some(2147483647), parse_i32("2147483647"));
    assert_eq!(None, parse_i32("2147483648"));
    assert_eq!(None, parse_i32(""));
    assert_eq!(None, parse_i32("12a"));
    assert_eq!(None, parse_i32("-3"));
}

#[test]
fn test_numerals() {
    assert_eq!("0", u128_to_string(0));
    assert_eq!("12345", u128_to_string(12345));
    assert_eq!("-42", i128_to_string(-42));
    assert_eq!("7", i128_to_string(7));
}
