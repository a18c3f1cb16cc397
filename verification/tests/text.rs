use hyprrun::text::{
    chars_of, contains, decimal, ends_with, find_char, is_blank, is_whitespace, split_once,
    starts_with, str_eq, trim,
};

#[test]
fn string_equality() {
    assert!(str_eq("abc", "abc"));
    assert!(!str_eq("abc", "abd"));
    assert!(!str_eq("abc", "ab"));
    assert!(str_eq("", ""));
    assert!(str_eq("ünï", "ünï"));
}

#[test]
fn chars_of_unicode() {
    assert_eq!(chars_of("aé☃"), vec!['a', 'é', '☃']);
}

#[test]
fn substring_search() {
    assert!(contains("docs - firefox", "fire"));
    assert!(contains("abc", ""));
    assert!(contains("", ""));
    assert!(!contains("", "a"));
    assert!(!contains("ab", "abc"));
    assert!(contains("aaab", "aab"));
    assert!(starts_with("docs", "do"));
    assert!(!starts_with("docs", "os"));
    assert!(starts_with("docs", ""));
    assert!(ends_with("docs", "cs"));
    assert!(!ends_with("docs", "do"));
    assert!(!ends_with("s", "cs"));
}

#[test]
fn split_at_first_char() {
    assert_eq!(split_once("a=b=c", '='), Some(("a", "b=c")));
    assert_eq!(split_once("=x", '='), Some(("", "x")));
    assert_eq!(split_once("x=", '='), Some(("x", "")));
    assert_eq!(split_once("x", '='), None);
    assert_eq!(split_once("é:ü", ':'), Some(("é", "ü")));
    assert_eq!(find_char("abcb", 'b'), Some(1));
    assert_eq!(find_char("abc", 'z'), None);
}

#[test]
fn white_space_and_trim() {
    assert!(is_whitespace(' '));
    assert!(is_whitespace('\n'));
    assert!(is_whitespace('\u{3000}'));
    assert!(!is_whitespace('a'));
    for c in ['\t', '\u{85}', '\u{a0}', '\u{2009}', '\u{2028}', 'x', '\u{200b}', '_'] {
        assert_eq!(is_whitespace(c), c.is_whitespace());
    }
    assert_eq!(trim("  {} \n"), "{}");
    assert_eq!(trim("   "), "");
    assert_eq!(trim("a b"), "a b");
    assert_eq!(trim("\u{3000}x\t"), "x");
    assert!(is_blank(" \n\t"));
    assert!(is_blank(""));
    assert!(!is_blank(" x "));
}

#[test]
fn decimal_text() {
    assert_eq!(decimal(0), "0");
    assert_eq!(decimal(7), "7");
    assert_eq!(decimal(10), "10");
    assert_eq!(decimal(-42), "-42");
    assert_eq!(decimal(i32::MAX), i32::MAX.to_string());
    assert_eq!(decimal(i32::MIN), i32::MIN.to_string());
}
