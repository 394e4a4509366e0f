use proxxyy::dispatch::{
    bad_gateway, finish_forward, finish_mock, forward_request, forward_response, mock_response,
    record_exchange, route, target_url, ForwardError, ProxyConfig, Route, UpstreamResponse,
};
use proxxyy::headers::{
    apply_cors, apply_extra_headers, has_header, header_entry, headers_from_pairs, name_less,
    parse_extra_header, set_header, sort_by_name, strip_host, transform_headers,
};
use proxxyy::mock::{default_status, is_file_body, resolve_body, MockRegistry, MockRule};
use proxxyy::request::{path_with_query, InboundRequest};

fn s(x: &str) -> String {
    x.to_string()
}

fn pair(a: &str, b: &str) -> (String, String) {
    (s(a), s(b))
}

fn rule(method: &str, path: &str, status: u16, body: &str) -> MockRule {
    MockRule { method: s(method), path: s(path), status, body: s(body), headers: Vec::new() }
}

fn config(add_cors: bool, extras: &[&str]) -> ProxyConfig {
    ProxyConfig {
        target_url: s("http://backend.local:8080/"),
        api_url: s("http://localhost:6969"),
        add_cors_headers: add_cors,
        extra_headers: extras.iter().map(|e| s(e)).collect(),
        mock_config: None,
        save_request_directory: None,
        hide_headers: false,
        hide_body: false,
    }
}

fn request(method: &str, path: &str, query: &str) -> InboundRequest {
    InboundRequest {
        method: s(method),
        path: s(path),
        query: s(query),
        headers: vec![pair("host", "localhost:6969"), pair("accept", "*/*")],
        body: Vec::new(),
    }
}

#[test]
fn default_status_is_ok() {
    assert_eq!(default_status(), 200);
}

#[test]
fn mock_matches_ignoring_case_and_is_not_forwarded() {
    let reg = MockRegistry::new(vec![rule("GET", "/v1/mock", 201, "Mocked body.")]);
    assert_eq!(reg.find("get", "/V1/MOCK"), Some(0));
    let cfg = config(false, &[]);
    let req = request("get", "/v1/Mock", "a=1");
    match route(&cfg, &Some(reg), &req) {
        Route::Mock(i) => assert_eq!(i, 0),
        Route::Forward(_) => panic!("a matching request was forwarded"),
    }
    let resp = mock_response(&cfg, &rule("GET", "/v1/mock", 201, "Mocked body."), None);
    assert_eq!(resp.status, 201);
    assert_eq!(resp.body, b"Mocked body.".to_vec());
}

#[test]
fn mock_does_not_match_other_method_or_prefix() {
    let reg = MockRegistry::new(vec![rule("GET", "/v1/mock", 200, "x")]);
    assert_eq!(reg.find("POST", "/v1/mock"), None);
    assert_eq!(reg.find("GET", "/v1/mock/extra"), None);
    assert_eq!(reg.find("GET", "/v1"), None);
}

#[test]
fn first_registered_rule_wins() {
    let reg = MockRegistry::new(vec![
        rule("POST", "/users", 201, "first"),
        rule("GET", "/users", 200, "other"),
        rule("post", "/USERS", 500, "second"),
    ]);
    assert_eq!(reg.find("POST", "/users"), Some(0));
    assert_eq!(reg.find("Post", "/Users"), Some(0));
}

#[test]
fn empty_registry_forwards_every_request() {
    let cfg = config(false, &[]);
    for reg in [None, Some(MockRegistry::new(Vec::new()))] {
        let req = request("GET", "/v1/items", "page=2");
        match route(&cfg, &reg, &req) {
            Route::Forward(f) => {
                assert_eq!(f.method, "GET");
                assert_eq!(f.url, "http://backend.local:8080/v1/items?page=2");
            }
            Route::Mock(_) => panic!("no rule can match"),
        }
    }
}

#[test]
fn host_header_is_never_forwarded() {
    let mut req = request("POST", "/a", "");
    req.headers = vec![
        pair("Host", "proxy:1"),
        pair("content-type", "application/json"),
        pair("HOST", "proxy:2"),
        pair("x-trace", "7"),
        pair("hOsT", "proxy:3"),
    ];
    req.body = b"{}".to_vec();
    let f = forward_request("http://t", &req);
    assert_eq!(f.headers, vec![pair("content-type", "application/json"), pair("x-trace", "7")]);
    assert_eq!(f.body, Some(b"{}".to_vec()));
    assert_eq!(strip_host(&vec![pair("host", "h")]), Vec::<(String, String)>::new());
}

#[test]
fn empty_body_is_not_attached() {
    let req = request("GET", "/a", "");
    let f = forward_request("http://t", &req);
    assert_eq!(f.body, None);
    assert_eq!(f.url, "http://t/a");
}

#[test]
fn target_url_strips_trailing_slashes() {
    assert_eq!(target_url("http://x//", "/p", ""), "http://x/p");
    assert_eq!(target_url("http://x", "/p", "a=1&b=2"), "http://x/p?a=1&b=2");
    assert_eq!(path_with_query("/p", ""), "/p");
    assert_eq!(path_with_query("/p", "q"), "/p?q");
}

#[test]
fn cors_adds_json_content_type_when_missing() {
    let mut h = vec![pair("x-a", "1")];
    apply_cors(&mut h);
    assert_eq!(
        h,
        vec![
            pair("x-a", "1"),
            pair("access-control-allow-origin", "*"),
            pair("access-control-allow-methods", "GET, POST, PUT, DELETE, OPTIONS"),
            pair("access-control-allow-headers", "Content-Type, Authorization"),
            pair("content-type", "application/json"),
        ]
    );
}

#[test]
fn cors_keeps_explicit_content_type() {
    let mut h = vec![pair("Content-Type", "text/html"), pair("access-control-allow-origin", "x")];
    apply_cors(&mut h);
    assert!(h.contains(&pair("Content-Type", "text/html")));
    assert!(!h.contains(&pair("content-type", "application/json")));
    assert!(h.contains(&pair("access-control-allow-origin", "*")));
    assert!(!h.contains(&pair("access-control-allow-origin", "x")));
}

#[test]
fn cors_respects_content_type_from_extra_header() {
    let cfg = config(true, &["Content-Type: text/plain"]);
    let resp = forward_response(
        &cfg,
        Ok(UpstreamResponse { status: 200, headers: Vec::new(), body: b"hi".to_vec() }),
    );
    assert!(resp.headers.contains(&pair("content-type", "text/plain")));
    assert!(!resp.headers.contains(&pair("content-type", "application/json")));
}

#[test]
fn extra_header_without_colon_changes_nothing() {
    let before = vec![pair("x-a", "1")];
    let mut h = before.clone();
    apply_extra_headers(&mut h, &vec![s("BadHeader")]);
    assert_eq!(h, before);
    assert_eq!(parse_extra_header("BadHeader"), None);
    let cfg = config(false, &["BadHeader"]);
    let resp = forward_response(
        &cfg,
        Ok(UpstreamResponse { status: 404, headers: before.clone(), body: Vec::new() }),
    );
    assert_eq!(resp.status, 404);
    assert_eq!(resp.headers, before);
}

#[test]
fn extra_header_is_split_trimmed_and_normalised() {
    assert_eq!(parse_extra_header("x-proxy-bob: yes"), Some(pair("x-proxy-bob", "yes")));
    assert_eq!(parse_extra_header("  X-Proxy-Bob :  a: b  "), Some(pair("x-proxy-bob", "a: b")));
    assert_eq!(parse_extra_header("Bad Name: v"), None);
    assert_eq!(parse_extra_header(": v"), None);
    assert_eq!(parse_extra_header("x-ok: bad\u{7f}value"), None);
    let mut h = vec![pair("x-proxy-bob", "no"), pair("x-other", "1")];
    apply_extra_headers(&mut h, &vec![s("X-Proxy-Bob: yes"), s("nonsense")]);
    assert_eq!(h, vec![pair("x-other", "1"), pair("x-proxy-bob", "yes")]);
}

#[test]
fn header_entries_and_lookup() {
    assert_eq!(header_entry("X-My-Header", "123"), Some(pair("x-my-header", "123")));
    assert_eq!(header_entry("", "1"), None);
    assert_eq!(header_entry("a(b", "1"), None);
    assert_eq!(header_entry("caf\u{e9}", "1"), None);
    assert_eq!(header_entry("x", "caf\u{e9}"), Some(pair("x", "caf\u{e9}")));
    let h = headers_from_pairs(&vec![pair("X-A", "1"), pair("bad name", "2"), pair("x-a", "3")]);
    assert_eq!(h, vec![pair("x-a", "3")]);
    assert!(has_header(&h, "X-A"));
    assert!(!has_header(&h, "x-b"));
    let mut h2 = h.clone();
    set_header(&mut h2, s("x-b"), s("4"));
    assert_eq!(h2, vec![pair("x-a", "3"), pair("x-b", "4")]);
}

#[test]
fn extras_then_cors_on_mock_reply() {
    let cfg = config(true, &["x-proxy: on"]);
    let mut r = rule("GET", "/m", 200, "{}");
    r.headers = vec![pair("X-My-Header", "123")];
    let resp = mock_response(&cfg, &r, None);
    assert_eq!(resp.status, 200);
    assert_eq!(resp.headers[0], pair("x-my-header", "123"));
    assert_eq!(resp.headers[1], pair("x-proxy", "on"));
    assert!(resp.headers.contains(&pair("content-type", "application/json")));
    let mut h = vec![pair("x-a", "1")];
    transform_headers(&mut h, &vec![s("x-b: 2")], false);
    assert_eq!(h, vec![pair("x-a", "1"), pair("x-b", "2")]);
}

#[test]
fn unreachable_target_gives_bad_gateway() {
    let cfg = config(true, &["x-extra: 1"]);
    let resp = forward_response(&cfg, Err(ForwardError::Send(s("error trying to connect"))));
    assert_eq!(resp.status, 502);
    assert_eq!(resp.headers, vec![pair("content-type", "text/plain")]);
    let text = String::from_utf8(resp.body.clone()).unwrap();
    assert_eq!(text, "Error forwarding request: error trying to connect");
    assert!(text.contains("forwarding"));
    let resp2 = bad_gateway(&ForwardError::ReadBody(s("eof")));
    assert_eq!(resp2.status, 502);
    assert_eq!(resp2.body, b"Error reading response body: eof".to_vec());
}

#[test]
fn forwarded_response_keeps_status_and_body() {
    let cfg = config(false, &[]);
    let resp = forward_response(
        &cfg,
        Ok(UpstreamResponse {
            status: 418,
            headers: vec![pair("content-type", "text/plain")],
            body: vec![0, 159, 146, 150],
        }),
    );
    assert_eq!(resp.status, 418);
    assert_eq!(resp.headers, vec![pair("content-type", "text/plain")]);
    assert_eq!(resp.body, vec![0, 159, 146, 150]);
}

#[test]
fn body_policy_reads_only_known_extensions() {
    assert!(is_file_body("data.json"));
    assert!(is_file_body("mocks/page.html"));
    assert!(is_file_body("a.txt"));
    assert!(!is_file_body("Mocked body."));
    assert!(!is_file_body(".json"));
    assert!(!is_file_body("dir/.json"));
    assert!(!is_file_body("data.xml"));
    assert!(!is_file_body("json"));
    assert_eq!(resolve_body("data.json", Some(s("{\"k\":1}"))), "{\"k\":1}");
    assert_eq!(resolve_body("data.json", None), "data.json");
    assert_eq!(resolve_body("plain", Some(s("ignored"))), "plain");
}

#[test]
fn record_only_with_save_directory() {
    let cfg = config(false, &[]);
    let req = request("GET", "/a", "");
    assert!(record_exchange(&cfg, &req, b"x", 1700000000).is_none());
    let mut cfg2 = config(false, &[]);
    cfg2.save_request_directory = Some(s("/tmp/out"));
    let rec = record_exchange(&cfg2, &req, b"x", 1700000000).unwrap();
    assert_eq!(rec.timestamp, 1700000000);
    assert_eq!(rec.file_name, "a_1700000000.json");
    assert_eq!(rec.file_body, b"x".to_vec());
    let neg = record_exchange(&cfg2, &req, b"x", -5).unwrap();
    assert_eq!(neg.file_name, "a_-5.json");
}

#[test]
fn failed_forward_is_not_recorded() {
    let mut cfg = config(false, &[]);
    cfg.save_request_directory = Some(s("/tmp/out"));
    let req = request("GET", "/down", "");
    let (resp, rec) = finish_forward(&cfg, &req, Err(ForwardError::Send(s("refused"))), 7);
    assert_eq!(resp.status, 502);
    assert!(rec.is_none());
    let (resp2, rec2) = finish_forward(
        &cfg,
        &req,
        Ok(UpstreamResponse { status: 200, headers: Vec::new(), body: b"up".to_vec() }),
        7,
    );
    assert_eq!(resp2.body, b"up".to_vec());
    let rec2 = rec2.unwrap();
    assert_eq!(rec2.file_name, "down_7.json");
    assert_eq!(rec2.file_body, b"up".to_vec());
    assert!(rec2.entry.contains("path = \"/down\""));
}

#[test]
fn mock_reply_is_recorded_when_saving() {
    let mut cfg = config(false, &[]);
    let req = request("GET", "/m", "x=1");
    let r = rule("GET", "/m", 202, "hello");
    let (resp, rec) = finish_mock(&cfg, &req, &r, None, 3);
    assert_eq!(resp.status, 202);
    assert!(rec.is_none());
    cfg.save_request_directory = Some(s("out"));
    let (_, rec) = finish_mock(&cfg, &req, &r, None, 3);
    let rec = rec.unwrap();
    assert_eq!(rec.file_name, "m_x_1_3.json");
    assert_eq!(rec.file_body, b"hello".to_vec());
}

#[test]
fn cors_on_upstream_response_has_one_json_content_type() {
    let cfg = config(true, &[]);
    let resp = forward_response(
        &cfg,
        Ok(UpstreamResponse { status: 200, headers: vec![pair("x-a", "1")], body: Vec::new() }),
    );
    let cts: Vec<_> = resp.headers.iter().filter(|p| p.0.eq_ignore_ascii_case("content-type")).collect();
    assert_eq!(cts, vec![&pair("content-type", "application/json")]);
    assert!(resp.headers.contains(&pair("access-control-allow-origin", "*")));
    assert!(resp.headers.contains(&pair("access-control-allow-methods", "GET, POST, PUT, DELETE, OPTIONS")));
    assert!(resp.headers.contains(&pair("access-control-allow-headers", "Content-Type, Authorization")));
}

#[test]
fn headers_sorted_by_name_last_value_kept() {
    let h = vec![pair("b", "1"), pair("a", "2"), pair("c", "3"), pair("b", "4"), pair("ab", "5")];
    assert_eq!(
        sort_by_name(&h),
        vec![pair("a", "2"), pair("ab", "5"), pair("b", "4"), pair("c", "3")]
    );
    assert_eq!(sort_by_name(&Vec::new()), Vec::<(String, String)>::new());
    assert!(name_less("a", "ab"));
    assert!(name_less("ab", "b"));
    assert!(!name_less("b", "b"));
    assert!(!name_less("b", "a"));
    assert!(name_less("Z", "a"));
}

#[test]
fn supplied_content_type_stays_the_only_one() {
    let cfg = config(true, &["CONTENT-TYPE: text/csv"]);
    let resp = forward_response(
        &cfg,
        Ok(UpstreamResponse {
            status: 200,
            headers: vec![pair("content-type", "text/html")],
            body: Vec::new(),
        }),
    );
    let cts: Vec<_> = resp.headers.iter().filter(|p| p.0.eq_ignore_ascii_case("content-type")).collect();
    assert_eq!(cts, vec![&pair("content-type", "text/csv")]);
    let cfg2 = config(true, &[]);
    let mut r = rule("GET", "/m", 200, "x");
    r.headers = vec![pair("Content-Type", "text/plain")];
    let resp2 = mock_response(&cfg2, &r, None);
    let cts2: Vec<_> = resp2.headers.iter().filter(|p| p.0.eq_ignore_ascii_case("content-type")).collect();
    assert_eq!(cts2, vec![&pair("content-type", "text/plain")]);
}
