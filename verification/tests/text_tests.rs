use synapse::cli::commands::truncate as truncate_bytes;
use synapse::text::{parse_i64, parse_usize, truncate};

#[test]
fn test_truncate() {
    assert_eq!(truncate_bytes("hello", 10), "hello");
    assert_eq!(truncate_bytes("hello world", 8), "hello...");
    assert_eq!(truncate_bytes("hi", 2), "hi");
    assert_eq!(truncate_bytes("hello", 3), "...");
}

#[test]
fn test_truncate_short_string_unchanged() {
    assert_eq!(truncate("hello", 10), "hello");
}

#[test]
fn test_truncate_exact_limit_unchanged() {
    assert_eq!(truncate("hello", 5), "hello");
}

#[test]
fn test_truncate_longer_string_adds_ellipsis() {
    assert_eq!(truncate("hello world", 8), "hello...");
}

#[test]
fn test_truncate_at_limit_three_returns_dots() {
    assert_eq!(truncate("hello", 3), "...");
}

#[test]
fn test_truncate_at_limit_two_returns_dots() {
    assert_eq!(truncate("hello", 2), "..");
}

#[test]
fn test_truncate_at_limit_one_returns_dot() {
    assert_eq!(truncate("hello", 1), ".");
}

#[test]
fn test_truncate_at_limit_zero_returns_empty() {
    assert_eq!(truncate("hello", 0), "");
}

#[test]
fn test_truncate_empty_string() {
    assert_eq!(truncate("", 10), "");
    assert_eq!(truncate("", 0), "");
}

#[test]
fn test_truncate_exact_boundary() {
    assert_eq!(truncate("hi", 2), "hi");
}

#[test]
fn test_truncate_multibyte_chars() {
    let s: String = "а".repeat(20);
    let result = truncate(&s, 10);
    assert_eq!(result.chars().count(), 10);
    assert!(result.ends_with("..."));
}

#[test]
fn test_truncate_multibyte_below_limit() {
    let s: String = "а".repeat(5);
    let result = truncate(&s, 10);
    assert_eq!(result, s);
}

#[test]
fn test_truncate_emoji() {
    let s = "🦀🦀🦀🦀🦀";
    let result = truncate(s, 3);
    assert_eq!(result, "...");
}

#[test]
fn test_truncate_unicode_large_limit() {
    let s = "hello world";
    assert_eq!(truncate(s, 150), "hello world");
}

#[test]
fn truncate_keeps_first_characters_exactly() {
    assert_eq!(truncate("abcdefghij", 7), "abcd...");
    assert_eq!(truncate("Привет мир", 6), "При...");
}

#[test]
fn truncate_bytes_cuts_at_byte_limit() {
    assert_eq!(truncate_bytes("abcdefghij", 7), "abcd...");
    assert_eq!(truncate_bytes("ab", 1), ".");
}

#[test]
fn truncate_bytes_cuts_on_a_character_boundary() {
    // "ж" is two bytes: a cut after five bytes falls after two whole letters.
    assert_eq!(truncate_bytes("привет мир", 8), "пр...");
    assert_eq!(truncate_bytes("жжжжж", 4), "...");
    assert_eq!(truncate_bytes("жжжжж", 5), "ж...");
    assert_eq!(truncate_bytes("abc", 2), "..");
}

#[test]
fn parse_usize_follows_std() {
    for s in ["0", "3", "+7", "0042", "18446744073709551615", "", "+", "-1", "abc", "1a", " 1", "18446744073709551616"] {
        assert_eq!(parse_usize(s), s.parse::<usize>().ok(), "input {:?}", s);
    }
}

#[test]
fn parse_i64_follows_std() {
    for s in ["0", "-0", "42", "+42", "-42", "9223372036854775807", "9223372036854775808", "-9223372036854775808", "-9223372036854775809", "", "-", "+", "1-", "--1"] {
        assert_eq!(parse_i64(s), s.parse::<i64>().ok(), "input {:?}", s);
    }
}
