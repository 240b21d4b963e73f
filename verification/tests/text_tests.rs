use quizgen::text::{
    contains, decimal_string, ends_with, replace_all, split_lines, split_on, split_whitespace,
    starts_with, trim, trim_end_matches, word_count,
};

#[test]
fn trim_removes_unicode_whitespace_at_both_ends() {
    assert_eq!(trim("  \t hello world \n"), "hello world");
    assert_eq!(trim("\u{3000}x\u{a0}"), "x");
    assert_eq!(trim("   "), "");
    assert_eq!(trim(""), "");
}

#[test]
fn split_whitespace_yields_maximal_runs() {
    assert_eq!(split_whitespace("  the cat\n\tsat  "), vec!["the", "cat", "sat"]);
    assert!(split_whitespace(" \n ").is_empty());
    assert_eq!(word_count("a b  c"), 3);
}

#[test]
fn split_lines_follows_str_lines() {
    assert_eq!(split_lines("a\r\nb\n\nc\n"), vec!["a", "b", "", "c"]);
    assert_eq!(split_lines("x\r"), vec!["x\r"]);
    assert!(split_lines("").is_empty());
    assert_eq!(split_lines("\n"), vec![""]);
    assert_eq!(split_lines("last line"), vec!["last line"]);
}

#[test]
fn substring_tests() {
    assert!(contains("1. Question: x", "Question:"));
    assert!(!contains("Questio", "Question:"));
    assert!(starts_with("Key: a", "Key:"));
    assert!(!starts_with(" Key: a", "Key:"));
    assert!(ends_with("notes.md", ".md"));
    assert!(!ends_with("md", ".md"));
}

#[test]
fn replace_all_is_left_to_right_without_overlap() {
    assert_eq!(replace_all("a\n\n\nb", "\n\n", "\n"), "a\n\nb");
    assert_eq!(replace_all("aaaa", "aa", "b"), "bb");
    assert_eq!(replace_all("abc", "x", "y"), "abc");
}

#[test]
fn split_on_keeps_empty_pieces() {
    assert_eq!(split_on("##### A ##### B", "##### "), vec!["", "A ", "B"]);
    assert_eq!(split_on("plain", "##### "), vec!["plain"]);
}

#[test]
fn decimal_numerals() {
    assert_eq!(decimal_string(0), "0");
    assert_eq!(decimal_string(7), "7");
    assert_eq!(decimal_string(42), "42");
    assert_eq!(decimal_string(1000), "1000");
}

#[test]
fn trim_end_matches_removes_every_trailing_copy() {
    assert_eq!(trim_end_matches("notes.md.md", ".md"), "notes");
    assert_eq!(trim_end_matches("notes.txt", ".md"), "notes.txt");
    assert_eq!(trim_end_matches(".md", ".md"), "");
}
