//! Tests for reply-markup escaping.

use groups_bot::utils::escape_markdown;

#[test]
fn test_strip_escaped() {
    assert_eq!(escape_markdown(r"hello\there"), r"hellothere");
}

#[test]
fn test_escape_bold() {
    assert_eq!(escape_markdown(r"hello*there"), r"hello\*there");
}

#[test]
fn test_escape_italic() {
    assert_eq!(escape_markdown(r"hello_there"), r"hello\_there");
}

#[test]
fn test_escape_backtick() {
    assert_eq!(escape_markdown(r"hello`there"), r"hello\`there");
    assert_eq!(escape_markdown(r"```hello```"), r"\`\`\`hello\`\`\`");
}

#[test]
fn test_escape_url() {
    assert_eq!(
        escape_markdown(r"[hello](http://example.com)"),
        r"\[hello](http://example.com)"
    );
}

#[test]
fn test_escape_all() {
    let input = r"hi\*the*re_ [url](dest) `code``";
    let out = escape_markdown(input);
    assert_eq!(out, r"hi\*the\*re\_ \[url](dest) \`code\`\`");
}

#[test]
fn test_escape_every_special_once() {
    assert_eq!(escape_markdown("a*b_c`d[e"), "a\\*b\\_c\\`d\\[e");
}

#[test]
fn test_escape_strips_old_escapes_then_reescapes() {
    // the stale backslash is stripped first, then both literal stars and
    // the underscore are freshly escaped
    assert_eq!(escape_markdown(r"hi\*the*re_"), r"hi\*the\*re\_");
}

#[test]
fn test_escape_empty_and_plain() {
    assert_eq!(escape_markdown(""), "");
    assert_eq!(escape_markdown("plain text"), "plain text");
}
