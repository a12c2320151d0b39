use mdview::text::{count_words, decimal_string, join_strings, slice_str, split_lines, utf8_len};

#[test]
fn decimal_text() {
    assert_eq!(decimal_string(0), "0");
    assert_eq!(decimal_string(1234567890), "1234567890");
}

#[test]
fn words_are_split_on_white_space() {
    assert_eq!(count_words("  a b\tc\n d  "), 4);
    assert_eq!(count_words(""), 0);
}

#[test]
fn lines_drop_carriage_returns_and_last_newline() {
    assert_eq!(split_lines("a\r\nb\n\nc\n"), vec!["a", "b", "", "c"]);
    assert_eq!(split_lines("x"), vec!["x"]);
}

#[test]
fn byte_slices_on_character_boundaries() {
    assert_eq!(slice_str("héllo", 0, 3), Some("hé".to_string()));
    assert_eq!(slice_str("héllo", 0, 2), None);
    assert_eq!(slice_str("abc", 1, 9), None);
    assert_eq!(utf8_len("héllo"), 6);
}

#[test]
fn joining_with_separator() {
    let parts = vec!["a".to_string(), "b".to_string(), "c".to_string()];
    assert_eq!(join_strings(&parts, " | "), "a | b | c");
    assert_eq!(join_strings(&Vec::new(), ","), "");
}
