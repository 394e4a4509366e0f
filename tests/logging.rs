use proxxyy::logger::{
    body_log_line, body_size_line, describe_body, headers_log, request_line, BodyLog,
};
use proxxyy::text::{decimal, eq_ignore_ascii_case, is_blank, signed_decimal, trim};

#[test]
fn hidden_body_shows_length_only() {
    assert!(matches!(describe_body(b"secret", true), BodyLog::Hidden(6)));
    assert_eq!(body_log_line(b"secret", true, "Response body"), "Response body: [hidden] (6 bytes)");
    assert_eq!(body_log_line(b"", true, "Request body"), "Request body: [hidden] (0 bytes)");
}

#[test]
fn empty_body_marker() {
    assert!(matches!(describe_body(b"", false), BodyLog::Empty));
    assert_eq!(body_log_line(b"", false, "Response body"), "Response body: [empty] (0 bytes)");
}

#[test]
fn non_utf8_body_is_binary() {
    assert!(matches!(describe_body(&[0xFF, 0xFE], false), BodyLog::Binary));
    assert_eq!(body_log_line(&[0xFF, 0xFE], false, "Body"), "Body: [binary data]");
}

#[test]
fn whitespace_body_is_empty_string() {
    assert!(matches!(describe_body(b"   \n", false), BodyLog::BlankText));
    assert_eq!(body_log_line(b"   \n", false, "Body"), "Body: [empty string]");
}

#[test]
fn json_body_is_pretty_printed() {
    match describe_body(b"{\"a\":1}", false) {
        BodyLog::Pretty(p) => {
            assert_eq!(p, "{\n  \"a\": 1\n}");
            assert!(p.lines().count() >= 3);
        }
        _ => panic!("JSON was not pretty-printed"),
    }
    assert_eq!(body_log_line(b"[1,2]", false, "B"), "B:\n[\n  1,\n  2\n]");
}

#[test]
fn other_text_is_shown_verbatim() {
    match describe_body(b"not json", false) {
        BodyLog::Raw(t) => assert_eq!(t, "not json"),
        _ => panic!("text was not shown as it is"),
    }
    assert_eq!(body_log_line(b"not json", false, "B"), "B:\nnot json");
}

#[test]
fn request_and_header_lines() {
    assert_eq!(request_line("GET", "/a/b", ""), "GET /a/b");
    assert_eq!(request_line("POST", "/a", "x=1"), "POST /a?x=1");
    let h = vec![("b".to_string(), "2".to_string()), ("a".to_string(), "1".to_string())];
    assert_eq!(headers_log(&h, true), "Request headers: [hidden]");
    assert_eq!(headers_log(&h, false), "Request headers:\n{\n  \"a\": \"1\",\n  \"b\": \"2\"\n}");
}

#[test]
fn text_helpers() {
    assert!(eq_ignore_ascii_case("Content-Type", "content-TYPE"));
    assert!(!eq_ignore_ascii_case("abc", "abd"));
    assert!(!eq_ignore_ascii_case("abc", "ab"));
    assert!(is_blank(""));
    assert!(is_blank(" \t\u{3000}\n"));
    assert!(!is_blank(" x "));
    assert_eq!(trim("  a b \n"), "a b");
    assert_eq!(trim("   "), "");
    assert_eq!(decimal(0), "0");
    assert_eq!(decimal(1700000000), "1700000000");
    assert_eq!(signed_decimal(-42), "-42");
    assert_eq!(signed_decimal(i64::MIN), "-9223372036854775808");
}

#[test]
fn size_line_for_shown_bodies() {
    assert_eq!(body_size_line(b"abc", false, "Response body"), Some("Response body size: 3 bytes".to_string()));
    assert_eq!(body_size_line(b"abc", true, "Response body"), None);
    assert_eq!(body_size_line(b"", false, "Response body"), None);
}

#[test]
fn header_log_sorts_and_keeps_last_value() {
    let h = vec![
        ("x-b".to_string(), "1".to_string()),
        ("accept".to_string(), "*/*".to_string()),
        ("x-b".to_string(), "2".to_string()),
    ];
    assert_eq!(
        headers_log(&h, false),
        "Request headers:\n{\n  \"accept\": \"*/*\",\n  \"x-b\": \"2\"\n}"
    );
    assert_eq!(headers_log(&Vec::new(), false), "Request headers:\n{}");
}
