use deco::text::{
    decimal, ends_with, is_blank, join, parse_u32, split_bytes, split_lines, split_once,
    starts_with, to_lower, trim, trim_end, utf16_len,
};

#[test]
fn numbers_are_written_in_decimal() {
    assert_eq!(decimal(0), "0");
    assert_eq!(decimal(1047), "1047");
    assert_eq!(decimal(u64::MAX), "18446744073709551615");
}

#[test]
fn numbers_are_read_where_they_fit() {
    assert_eq!(parse_u32("42"), Some(42));
    assert_eq!(parse_u32("4294967295"), Some(u32::MAX));
    assert_eq!(parse_u32("4294967296"), None);
    assert_eq!(parse_u32("+7"), Some(7));
    assert_eq!(parse_u32("-7"), None);
    assert_eq!(parse_u32(""), None);
    assert_eq!(parse_u32("4x"), None);
}

#[test]
fn white_space_is_trimmed_from_the_ends() {
    assert_eq!(trim(" \t a b \n"), "a b");
    assert_eq!(trim_end(" a \n"), " a");
    assert_eq!(trim("\u{2003}a\u{85}"), "a");
    assert!(is_blank(" \t\n"));
    assert!(is_blank(""));
    assert!(!is_blank(" x "));
}

#[test]
fn a_text_is_split_and_joined_again() {
    assert_eq!(split_lines("a\n\nb\n"), ["a", "", "b"]);
    assert_eq!(split_lines(""), Vec::<String>::new());
    assert_eq!(join(&split_lines("a\nb"), ", "), "a, b");
    assert_eq!(split_once("a:b:c", ':'), Some(("a".to_owned(), "b:c".to_owned())));
    assert_eq!(split_once("abc", ':'), None);
    assert_eq!(split_bytes(&b"a\nb".to_vec(), b'\n'), [b"a".to_vec(), b"b".to_vec()]);
}

#[test]
fn prefixes_and_suffixes_are_whole_characters() {
    assert!(starts_with("äb", "ä"));
    assert!(!starts_with("a", "ab"));
    assert!(ends_with("main.rs", ".rs"));
    assert!(!ends_with("rs", ".rs"));
}

#[test]
fn only_ascii_letters_are_lowered() {
    assert_eq!(to_lower("ÄB-Z"), "Äb-z");
}

#[test]
fn columns_count_utf16_units() {
    assert_eq!(utf16_len("ab🎉"), 4);
    assert_eq!(utf16_len("日本"), 2);
}
