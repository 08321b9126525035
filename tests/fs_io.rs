use termedit::fs_io;

#[test]
fn normalize_newlines() {
    let s = "a\r\nb\rc\n".to_string();
    let normalized = fs_io::normalize_newlines(&s);
    assert_eq!(normalized, "a\nb\nc\n");
}

#[test]
fn normalize_keeps_plain_text_and_trailing_cr() {
    assert_eq!(fs_io::normalize_newlines("abc"), "abc");
    assert_eq!(fs_io::normalize_newlines("\r\r\n\r"), "\n\n\n");
    assert_eq!(fs_io::normalize_newlines(""), "");
}
