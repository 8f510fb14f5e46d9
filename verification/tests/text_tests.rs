use hibp_check::numbers::parse_i32;
use hibp_check::text::{eq_ignore_ascii_case, trimmed};

#[test]
fn trimming_removes_surrounding_whitespace() {
    assert_eq!(trimmed("  hello world \t\r\n"), "hello world");
    assert_eq!(trimmed("no-edges"), "no-edges");
    assert_eq!(trimmed("   \t  "), "");
    assert_eq!(trimmed(""), "");
}

#[test]
fn trimming_keeps_inner_whitespace() {
    assert_eq!(trimmed(" a b "), "a b");
}

#[test]
fn case_insensitive_equality() {
    assert!(eq_ignore_ascii_case("AbCdEf", "aBcDeF"));
    assert!(eq_ignore_ascii_case("5BAA6", "5baa6"));
    assert!(!eq_ignore_ascii_case("abc", "abd"));
    assert!(!eq_ignore_ascii_case("ab", "abc"));
    assert!(eq_ignore_ascii_case("", ""));
}

#[test]
fn case_folding_touches_only_letters() {
    // '[' and '{' differ by the same distance as 'A' and 'a'
    assert!(!eq_ignore_ascii_case("[", "{"));
}

#[test]
fn decimal_parsing() {
    assert_eq!(parse_i32("0"), Some(0));
    assert_eq!(parse_i32("21303723"), Some(21303723));
    assert_eq!(parse_i32("+7"), Some(7));
    assert_eq!(parse_i32("-8"), Some(-8));
    assert_eq!(parse_i32("2147483647"), Some(i32::MAX));
    assert_eq!(parse_i32("-2147483648"), Some(i32::MIN));
}

#[test]
fn decimal_parsing_rejects_non_numerals() {
    assert_eq!(parse_i32(""), None);
    assert_eq!(parse_i32("+"), None);
    assert_eq!(parse_i32("-"), None);
    assert_eq!(parse_i32("12a"), None);
    assert_eq!(parse_i32("1 2"), None);
    assert_eq!(parse_i32(" 1"), None);
}

#[test]
fn decimal_parsing_rejects_overflow() {
    assert_eq!(parse_i32("2147483648"), None);
    assert_eq!(parse_i32("-2147483649"), None);
    assert_eq!(parse_i32("99999999999999999999"), None);
}
