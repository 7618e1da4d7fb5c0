use rustly_storage::text::{
    chars_of, decimal, first_piece, holds, same_text, split, starts_with, strip_prefix, trim,
};

#[test]
fn numbers_are_written_in_decimal() {
    assert_eq!(decimal(0), "0");
    assert_eq!(decimal(9), "9");
    assert_eq!(decimal(10), "10");
    assert_eq!(decimal(1_048_576), "1048576");
    assert_eq!(decimal(u64::MAX), "18446744073709551615");
}

#[test]
fn text_is_split_as_the_standard_library_does() {
    for text in ["", ".", "a", "a.b", ".a..b.", "é.ü", "..."] {
        let expected: Vec<String> = text.split('.').map(String::from).collect();
        assert_eq!(split(text, '.'), expected, "{text:?}");
    }
}

#[test]
fn text_is_trimmed_as_the_standard_library_does() {
    for text in ["", "/", "///", "a", "/a", "a/", "//a/b//", "é/", "/é"] {
        assert_eq!(trim(text, '/'), text.trim_matches('/'), "{text:?}");
    }
}

#[test]
fn prefixes_are_found_and_taken_off() {
    assert!(starts_with("b3:abc", "b3:"));
    assert!(starts_with("b3:", "b3:"));
    assert!(!starts_with("b3", "b3:"));
    assert!(starts_with("x", ""));
    assert_eq!(strip_prefix("b3:abc", "b3:"), Some("abc"));
    assert_eq!(strip_prefix("b4:abc", "b3:"), None);
    assert_eq!(strip_prefix("éa", "é"), Some("a"));
    assert!(same_text("a", "a"));
    assert!(!same_text("a", "b"));
    assert_eq!(chars_of("aé"), vec!['a', 'é']);
}

#[test]
fn the_first_piece_ends_at_the_first_mark() {
    assert_eq!(first_piece("a:b:c", ':'), "a");
    assert_eq!(first_piece(":b", ':'), "");
    assert_eq!(first_piece("abc", ':'), "abc");
    assert_eq!(first_piece("", ':'), "");
    assert!(holds("a@b", '@'));
    assert!(!holds("ab", '@'));
    assert!(!holds("", '@'));
}
