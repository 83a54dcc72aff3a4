use grader::text::{is_ws, trim_str, trimmed_eq};

#[test]
fn trim_removes_leading_and_trailing_whitespace() {
    assert_eq!(trim_str("  a b \n"), "a b");
    assert_eq!(trim_str("3\n"), "3");
    assert_eq!(trim_str("abc"), "abc");
    assert_eq!(trim_str(""), "");
    assert_eq!(trim_str(" \t\r\n "), "");
}

#[test]
fn trim_handles_non_ascii_whitespace() {
    assert_eq!(trim_str("\u{00A0}x\u{3000}"), "x");
    assert_eq!(trim_str("\u{2003}ok\u{2028}"), "ok");
}

#[test]
fn trim_keeps_interior_whitespace() {
    assert_eq!(trim_str(" a  b "), "a  b");
    assert_eq!(trim_str("line1\nline2\n"), "line1\nline2");
}

#[test]
fn trimmed_eq_ignores_edge_whitespace_only() {
    assert!(trimmed_eq("3\n", "3"));
    assert!(trimmed_eq("  hello ", "hello"));
    assert!(trimmed_eq("", "   "));
    assert!(!trimmed_eq("a  b", "a b"));
    assert!(!trimmed_eq("A", "a"));
    assert!(!trimmed_eq("3", "4"));
    assert!(!trimmed_eq("line1\nline2", "line1 line2"));
}

#[test]
fn whitespace_classification() {
    assert!(is_ws(' '));
    assert!(is_ws('\t'));
    assert!(is_ws('\n'));
    assert!(is_ws('\u{00A0}'));
    assert!(is_ws('\u{2009}'));
    assert!(!is_ws('a'));
    assert!(!is_ws('0'));
    assert!(!is_ws('\u{200B}'));
}
