use proxxyy::dispatch::{mock_response, ProxyConfig};
use proxxyy::mock::{MockRegistry, MockRule};
use proxxyy::recorder::{
    base_name, body_file_name, capture_content, capture_entry, capture_file_name, escape, CaptureFile,
    CaptureWrite,
    plan_recording, sanitize, saved_body,
};

#[test]
fn base_name_from_path_and_query() {
    assert_eq!(base_name("/api/v1/users", ""), "api_v1_users");
    assert_eq!(base_name("/api/v1/users", "id=5&x=y"), "api_v1_users_id_5_x_y");
    assert_eq!(base_name("/a-b.c", "q=%20"), "a_b_c_q__20");
    assert_eq!(base_name("", ""), "");
    assert_eq!(sanitize("a/\u{e9}_Z9"), "a___Z9");
    assert_eq!(sanitize("\u{e9}"), "_");
}

#[test]
fn body_file_name_has_timestamp() {
    assert_eq!(body_file_name("/users", "", 1700000000), "users_1700000000.json");
    assert_eq!(body_file_name("/users", "a=1", 5), "users_a_1_5.json");
}

#[test]
fn capture_entry_format() {
    assert_eq!(
        capture_entry("GET", "/users", "a=1", "users_a_1_5.json"),
        "[[mocks]]\nmethod = \"GET\"\npath = \"/users?a=1\"\nstatus = 200\nbody = \"users_a_1_5.json\"\n"
    );
    assert_eq!(escape("a\"b\\c"), "a\\\"b\\\\c");
    assert_eq!(capture_file_name(), "mocked-request.toml");
}

fn replaced(w: CaptureWrite) -> String {
    match w {
        CaptureWrite::Replace(t) => t,
        CaptureWrite::Append(_) => panic!("expected the whole file"),
    }
}

#[test]
fn capture_file_created_then_appended() {
    let first = replaced(capture_content(CaptureFile::Absent, "E1\n"));
    assert_eq!(
        first,
        "# Mock configuration file generated by proxxyy\n# Each entry represents a mock endpoint\n\nE1\n"
    );
    let second = replaced(capture_content(CaptureFile::Existing(first.clone()), "E1\n"));
    assert_eq!(second, format!("{}\nE1\n", first));
}

#[test]
fn unreadable_capture_file_gets_the_entry_appended() {
    match capture_content(CaptureFile::Unreadable, "E1\n") {
        CaptureWrite::Append(t) => assert_eq!(t, "\nE1\n"),
        CaptureWrite::Replace(_) => panic!("an unreadable file must not be rewritten"),
    }
}

#[test]
fn saved_body_pretty_prints_json_only() {
    assert_eq!(saved_body(b"{\"a\":1}"), b"{\n  \"a\": 1\n}".to_vec());
    assert_eq!(saved_body(b"plain"), b"plain".to_vec());
    assert_eq!(saved_body(&[0xFF, 0x00]), vec![0xFF, 0x00]);
}

fn string_field(t: &toml::Table, k: &str) -> String {
    t.get(k).and_then(|v| v.as_str()).unwrap().to_string()
}

#[test]
fn recorded_exchange_replays_as_mock() {
    let body = b"hello from upstream".to_vec();
    let rec = plan_recording("GET", "/v1/hello", "", &body, 1700000000);
    let text = replaced(capture_content(CaptureFile::Absent, &rec.entry));
    let parsed: toml::Table = text.parse().unwrap();
    let mocks = parsed.get("mocks").and_then(|m| m.as_array()).unwrap();
    assert_eq!(mocks.len(), 1);
    let m = mocks[0].as_table().unwrap();
    let status = m.get("status").and_then(|v| v.as_integer()).unwrap();
    assert_eq!(status, 200);
    let rule = MockRule {
        method: string_field(m, "method"),
        path: string_field(m, "path"),
        status: status as u16,
        body: string_field(m, "body"),
        headers: Vec::new(),
    };
    assert_eq!(rule.body, rec.file_name);
    let reg = MockRegistry::new(vec![rule]);
    assert_eq!(reg.find("GET", "/v1/hello"), Some(0));
    let cfg = ProxyConfig {
        target_url: "http://t".to_string(),
        api_url: "http://localhost:1".to_string(),
        add_cors_headers: false,
        extra_headers: Vec::new(),
        mock_config: None,
        save_request_directory: None,
        hide_headers: false,
        hide_body: false,
    };
    let contents = String::from_utf8(rec.file_body.clone()).unwrap();
    let resp = mock_response(&cfg, &reg.rules[0], Some(contents));
    assert_eq!(resp.status, 200);
    assert_eq!(resp.body, body);
}

#[test]
fn capture_entry_with_quote_stays_valid_toml() {
    let rec = plan_recording("GET", "/a\"b", "", b"x", 1);
    let parsed: toml::Table = rec.entry.parse().unwrap();
    let m = parsed.get("mocks").and_then(|m| m.as_array()).unwrap()[0].as_table().unwrap().clone();
    assert_eq!(string_field(&m, "path"), "/a\"b");
}

#[test]
fn escape_covers_toml_control_characters() {
    assert_eq!(escape("a\nb\rc\td"), "a\\nb\\rc\td");
    assert_eq!(escape("\u{8}\u{c}\u{0}\u{1f}\u{7f}"), "\\b\\f\\u0000\\u001F\\u007F");
    assert_eq!(escape("caf\u{e9}"), "caf\u{e9}");
}

#[test]
fn capture_entry_with_control_characters_stays_valid_toml() {
    let rec = plan_recording("GET", "/a\nb\u{1}", "", b"x", 1);
    let parsed: toml::Table = rec.entry.parse().unwrap();
    let m = parsed.get("mocks").and_then(|m| m.as_array()).unwrap()[0].as_table().unwrap().clone();
    assert_eq!(string_field(&m, "path"), "/a\nb\u{1}");
}
