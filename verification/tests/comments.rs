use latex_extract::comments::remove_comments;
#[test]
fn test_full_line_comment() {
    assert_eq!(remove_comments("% this is a comment\nhello"), "hello");
}

#[test]
fn test_inline_comment() {
    assert_eq!(remove_comments("hello % comment\nworld"), "hello world");
}

#[test]
fn test_escaped_percent() {
    assert_eq!(remove_comments("10\\% tax"), "10\\% tax");
}

#[test]
fn test_double_backslash_percent() {
    // \\% = escaped backslash + comment
    assert_eq!(remove_comments("line\\\\% comment\nnext"), "line\\\\next");
}

#[test]
fn test_line_joining() {
    // word%\njoined → wordjoined
    assert_eq!(remove_comments("word%\njoined"), "wordjoined");
}

#[test]
fn test_bare_percent_at_eol() {
    // Just % at end of line with nothing after
    assert_eq!(remove_comments("text%\n"), "text");
}

#[test]
fn test_bare_percent_at_eof() {
    assert_eq!(remove_comments("text%"), "text");
}

#[test]
fn test_no_comments() {
    assert_eq!(remove_comments("hello world"), "hello world");
}

#[test]
fn test_multiple_comments() {
    let input = "a % first\nb % second\nc";
    assert_eq!(remove_comments(input), "a b c");
}

#[test]
fn test_comment_preserves_non_ascii() {
    // This is a simplified test — real UTF-8 handling is covered by
    // the byte-level scanning
    assert_eq!(remove_comments("café % comment\nworld"), "café world");
}

#[test]
fn test_text_without_percent_unchanged() {
    let text = "caf\u{e9} \\alpha\n\\\\ na\u{ef}ve \u{1d400}";
    assert_eq!(remove_comments(text), text);
}

#[test]
fn test_comment_removal_keeps_multibyte_neighbours() {
    assert_eq!(remove_comments("\u{e9}t\u{e9}%\u{e9}t\u{e9}\n\u{4e2d}"), "\u{e9}t\u{e9}\u{4e2d}");
    assert_eq!(remove_comments("\\\u{e9}%x"), "\\\u{e9}");
}
