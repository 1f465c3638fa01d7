use scrape_blogger::number::{decimal_text, parse_number};
use scrape_blogger::text::{
    chars_of, contains, join, remove_all, same_text, starts_with, string_of,
};
use scrape_blogger::text_set::TextSet;

#[test]
fn chars_round_trip() {
    let v = chars_of("a(12)é");
    assert_eq!(v, vec!['a', '(', '1', '2', ')', 'é']);
    assert_eq!(string_of(&v), "a(12)é");
    assert_eq!(string_of(&Vec::new()), "");
}

#[test]
fn same_text_compares_characters() {
    assert!(same_text("abc", "abc"));
    assert!(same_text("", ""));
    assert!(!same_text("abc", "abd"));
    assert!(!same_text("abc", "ab"));
}

#[test]
fn starts_with_looks_at_the_beginning() {
    assert!(starts_with("//host/a", "//"));
    assert!(starts_with("abc", ""));
    assert!(starts_with("", ""));
    assert!(!starts_with("/", "//"));
    assert!(!starts_with("a//", "//"));
}

#[test]
fn contains_finds_a_needle_anywhere() {
    assert!(contains("picture.gif", ".gif"));
    assert!(contains(".gif", ".gif"));
    assert!(contains("a.gif?x", ".gif"));
    assert!(contains("abc", ""));
    assert!(contains("", ""));
    assert!(!contains("picture.gi", ".gif"));
    assert!(!contains("", "x"));
    assert!(!contains("gif.", ".gif"));
}

#[test]
fn remove_all_takes_out_every_occurrence() {
    assert_eq!(remove_all("xxabxxcdxx", "xx"), "abcd");
    assert_eq!(remove_all("aaa", "aa"), "a");
    assert_eq!(remove_all("abab", "ab"), "");
    assert_eq!(remove_all("abc", ""), "abc");
    assert_eq!(remove_all("", "ab"), "");
    assert_eq!(remove_all("abc", "abcd"), "abc");
    assert_eq!(remove_all("aXbXc", "X"), "aXbXc".replace("X", ""));
}

#[test]
fn join_puts_the_separator_between_neighbours() {
    let parts = vec!["a".to_string(), "".to_string(), "c".to_string()];
    assert_eq!(join(&parts, " "), "a  c");
    assert_eq!(join(&vec!["only".to_string()], ", "), "only");
    assert_eq!(join(&Vec::new(), ", "), "");
}

#[test]
fn parse_number_reads_what_usize_parsing_reads() {
    let cases = [
        "0", "7", "42", "007", "+5", "+", "", "-1", " 1", "1 ", "12a", "٣", "1_000",
        "18446744073709551615", "18446744073709551616", "99999999999999999999999",
        "4294967295", "4294967296", "++1",
    ];
    for text in cases {
        assert_eq!(parse_number(text), text.parse::<usize>().ok(), "input {text:?}");
    }
    assert_eq!(parse_number("42"), Some(42));
    assert_eq!(parse_number("+5"), Some(5));
    assert_eq!(parse_number("12a"), None);
}

#[test]
fn decimal_text_writes_numbers() {
    assert_eq!(decimal_text(0), "0");
    assert_eq!(decimal_text(7), "7");
    assert_eq!(decimal_text(10), "10");
    assert_eq!(decimal_text(4096), "4096");
    assert_eq!(decimal_text(usize::MAX), usize::MAX.to_string());
}

#[test]
fn decimal_text_is_read_back() {
    for n in [0usize, 1, 9, 10, 99, 100, 12345, usize::MAX] {
        assert_eq!(parse_number(&decimal_text(n)), Some(n));
    }
}

#[test]
fn text_set_keeps_first_arrivals() {
    let mut set = TextSet::new();
    assert_eq!(set.len(), 0);
    assert!(set.insert("b".to_string()));
    assert!(set.insert("a".to_string()));
    assert!(!set.insert("b".to_string()));
    assert_eq!(set.len(), 2);
    assert!(set.contains("a"));
    assert!(!set.contains("c"));
    assert_eq!(set.get(0), "b");
    assert_eq!(set.into_list(), vec!["b".to_string(), "a".to_string()]);
}

#[test]
fn text_set_from_list_drops_repeats() {
    let list = vec!["x".to_string(), "y".to_string(), "x".to_string(), "z".to_string(), "y".to_string()];
    let set = TextSet::from_list(&list);
    assert_eq!(set.into_list(), vec!["x".to_string(), "y".to_string(), "z".to_string()]);
}
