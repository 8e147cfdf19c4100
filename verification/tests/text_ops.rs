//! The text utilities: substring search, trimming, and line splitting.

use rustrecon::text::{split_lines, str_contains, str_trim};

#[test]
fn contains_finds_substrings() {
    assert!(str_contains("sub.example.com", "example.com"));
    assert!(str_contains("example.com", "example.com"));
    assert!(str_contains("notexample.common", "example.com"));
    assert!(!str_contains("other.org", "example.com"));
    assert!(!str_contains("com", "example.com"));
    assert!(str_contains("anything", ""));
    assert!(str_contains("", ""));
}

#[test]
fn trim_strips_both_ends() {
    assert_eq!(str_trim("  a.example.com \t"), "a.example.com");
    assert_eq!(str_trim("a.example.com"), "a.example.com");
    assert_eq!(str_trim(" \t\r\n "), "");
    assert_eq!(str_trim(""), "");
    assert_eq!(str_trim("a b"), "a b");
}

#[test]
fn trim_strips_unicode_whitespace() {
    assert_eq!(str_trim("\u{a0}a.example.com\u{2003}"), "a.example.com");
    assert_eq!("\u{a0}a\u{2003}".trim(), str_trim("\u{a0}a\u{2003}"));
}

#[test]
fn split_lines_matches_line_endings() {
    assert_eq!(split_lines("a\nb\nc"), vec!["a", "b", "c"]);
    assert_eq!(split_lines("a\r\nb\r\n"), vec!["a", "b"]);
    assert_eq!(split_lines("a\n\nb"), vec!["a", "", "b"]);
    assert_eq!(split_lines(""), Vec::<String>::new());
    assert_eq!(split_lines("\n"), vec![""]);
    assert_eq!(split_lines("a"), vec!["a"]);
}

#[test]
fn split_lines_keeps_bare_carriage_returns() {
    assert_eq!(split_lines("a\rb"), vec!["a\rb"]);
    assert_eq!(split_lines("abc\r"), vec!["abc\r"]);
    let sample = "x\ry\r\nz\r";
    let expected: Vec<String> = sample.lines().map(|l| l.to_string()).collect();
    assert_eq!(split_lines(sample), expected);
}

#[test]
fn split_lines_agrees_with_std_lines() {
    for sample in ["", "\n", "a\nb", "a\r\nb\nc\r\n", "one\rline", "tail\r"] {
        let expected: Vec<String> = sample.lines().map(|l| l.to_string()).collect();
        assert_eq!(split_lines(sample), expected, "on {:?}", sample);
    }
}
