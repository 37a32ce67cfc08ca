use surrealkit::text::{
    decimal_string, join_strings, parse_u64, split_lines, split_on, split_words, str_contains,
    str_eq_ignore_case, str_is_blank, str_lower, str_lt, str_starts_with, str_trim,
};

#[test]
fn words_are_cut_at_white_space() {
    assert_eq!(split_words("  DEFINE  TABLE\tperson \n"), vec!["DEFINE", "TABLE", "person"]);
    assert!(split_words("   ").is_empty());
    assert_eq!(split_words("a\u{3000}b"), vec!["a", "b"]);
}

#[test]
fn lines_drop_their_terminators() {
    assert_eq!(split_lines("a\r\nb\n\nc"), vec!["a", "b", "", "c"]);
    assert_eq!(split_lines("a\n"), vec!["a"]);
    assert_eq!(split_lines("a\r"), vec!["a\r"]);
    assert!(split_lines("").is_empty());
    assert_eq!(split_lines("\n"), vec![""]);
}

#[test]
fn lines_agree_with_the_standard_library() {
    for text in ["", "\n", "a", "a\n\nb\r\n", "\r\n\r", "x\r\ny\rz\n", "\n\n"] {
        let expected: Vec<String> = text.lines().map(|l| l.to_string()).collect();
        assert_eq!(split_lines(text), expected);
    }
}

#[test]
fn words_agree_with_the_standard_library() {
    for text in ["", " ", "a", " a  b\tc\n", "\u{a0}x\u{2003}y ", "DEFINE TABLE t;"] {
        let expected: Vec<String> = text.split_whitespace().map(|l| l.to_string()).collect();
        assert_eq!(split_words(text), expected);
    }
}

#[test]
fn trim_removes_unicode_white_space() {
    assert_eq!(str_trim("\u{2003} x y \u{a0}\n"), "x y");
    assert_eq!(str_trim("   "), "");
    assert!(str_is_blank(" \t\r\n"));
    assert!(str_is_blank(""));
    assert!(!str_is_blank(" . "));
}

#[test]
fn pieces_keep_empty_parts() {
    assert_eq!(split_on("a..b.", '.'), vec!["a", "", "b", ""]);
    assert_eq!(split_on("", '.'), vec![""]);
    assert_eq!(split_on("abc", '.'), vec!["abc"]);
}

#[test]
fn joining_puts_the_separator_between_parts() {
    let parts = vec!["a".to_string(), "b".to_string(), "c".to_string()];
    assert_eq!(join_strings(&parts, ", "), "a, b, c");
    assert_eq!(join_strings(&vec!["only".to_string()], ", "), "only");
    assert_eq!(join_strings(&Vec::new(), ", "), "");
}

#[test]
fn substrings_are_found_anywhere() {
    assert!(str_contains("permission denied", "permission"));
    assert!(str_contains("abc", ""));
    assert!(str_contains("", ""));
    assert!(str_contains("abc", "bc"));
    assert!(!str_contains("abc", "cb"));
    assert!(!str_contains("ab", "abc"));
    assert!(str_starts_with("ws://x", "ws://"));
    assert!(!str_starts_with("w", "ws://"));
}

#[test]
fn case_is_ignored_for_ascii_letters_only() {
    assert!(str_eq_ignore_case("Define", "DEFINE"));
    assert!(!str_eq_ignore_case("define", "defin"));
    assert!(!str_eq_ignore_case("É", "é"));
    assert_eq!(str_lower("TaBLe É"), "table É");
}

#[test]
fn numerals_are_written_without_leading_zeros() {
    assert_eq!(decimal_string(0), "0");
    assert_eq!(decimal_string(7), "7");
    assert_eq!(decimal_string(10), "10");
    assert_eq!(decimal_string(1234567890123), "1234567890123");
    assert_eq!(decimal_string(u128::MAX), "340282366920938463463374607431768211455");
}

#[test]
fn numbers_are_read_like_the_standard_library_reads_them() {
    for text in ["0", "10000", "+5", "007", "", "+", "-1", "1.5", " 1", "18446744073709551615", "18446744073709551616", "12a"] {
        assert_eq!(parse_u64(text), text.parse::<u64>().ok());
    }
}

#[test]
fn texts_are_ordered_by_code_point() {
    assert!(str_lt("a", "b"));
    assert!(str_lt("a", "ab"));
    assert!(!str_lt("ab", "a"));
    assert!(!str_lt("a", "a"));
    assert!(str_lt("Z", "a"));
    assert!(str_lt("a-b", "a/b"));
    for (a, b) in [("é", "z"), ("z", "é"), ("", "a"), ("日本", "日本語"), ("\u{10000}", "\u{ffff}")] {
        assert_eq!(str_lt(a, b), a < b);
    }
}
