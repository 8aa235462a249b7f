//! Text helpers and encodings.

use way_dictation::encoding::{can_encode, urlencode};
use way_dictation::text::{
    can_truncate, contains, decimal, join, same, split_words, to_ascii_lower, trim,
    truncate,
};

#[test]
fn texts_are_compared() {
    assert!(same("grün", "grün"));
    assert!(!same("a", "b"));
    assert!(!same("a", "ab"));
}

#[test]
fn white_space_is_trimmed() {
    assert_eq!(trim(" \u{a0}a b\u{2003}\n"), "a b");
    assert_eq!(trim(" \t "), "");
    // a zero-width space is no white space
    assert_eq!(trim("\u{200b}"), "\u{200b}");
}

#[test]
fn words_are_split_and_joined() {
    assert_eq!(split_words("  one\ttwo\u{3000}three "), vec!["one", "two", "three"]);
    assert_eq!(split_words(" "), Vec::<String>::new());
    assert_eq!(join(&["a".to_string(), "b".to_string()], ", "), "a, b");
    assert_eq!(join(&[], ", "), "");
}

#[test]
fn needles_are_found() {
    assert!(contains("read timed out", "timed out"));
    assert!(contains("x", ""));
    assert!(!contains("time", "timed out"));
}

#[test]
fn letters_are_lowered() {
    assert_eq!(to_ascii_lower("GPT-É z"), "gpt-É z");
}

#[test]
fn numbers_are_written() {
    assert_eq!(decimal(0), "0");
    assert_eq!(decimal(9), "9");
    assert_eq!(decimal(10), "10");
    assert_eq!(decimal(u128::MAX), "340282366920938463463374607431768211455");
}

#[test]
fn texts_are_cut_at_characters() {
    assert_eq!(truncate("abc", 2), "ab");
    assert_eq!(truncate("abc", 3), "abc");
    assert_eq!(truncate("aé", 1), "a");
    assert!(!can_truncate("aé", 2));
    assert!(can_truncate("aé", 3));
}

#[test]
fn queries_are_encoded() {
    assert_eq!(urlencode("AZaz09-_.~"), "AZaz09-_.~");
    assert_eq!(urlencode("a=b+c/d&e f"), "a%3Db%2Bc%2Fd%26e%20f");
    assert_eq!(urlencode("é"), "%C3%A9");
    assert_eq!(urlencode(""), "");
}

#[test]
fn base64_needs_room() {
    assert!(can_encode(1000));
    assert!(!can_encode(usize::MAX));
}
