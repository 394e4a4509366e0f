//! The per-request pipeline: mock lookup, then a mock reply or a forward to
//! the upstream target, the response header policy, and the recording of
//! the exchange. The transport performs the forward and the file work; the
//! decisions and the values it needs are computed here.

use vstd::prelude::*;
use vstd::utf8::{decode_utf8, encode_utf8, valid_utf8};
use crate::headers::{
    headers_from_pairs, pairs_view, strip_host, strings_view, transform_headers, transformed,
    with_entries, without_name,
};
use crate::logger::pretty_json_of;
use crate::mock::{is_file_body_spec, is_first_match, resolve_body, resolved_body, rule_matches, MockRegistry, MockRule};
use crate::recorder::{plan_recording, records, Recording};
use crate::request::{path_with_query, path_with_query_spec, InboundRequest, ProxyResponse};
use crate::text::{decimal_spec, digits, same_ignoring_case, signed_decimal_spec};

verus! {

/// The configuration read at startup and shared, read-only, by every
/// request.
pub struct ProxyConfig {
    /// The base URL that requests are forwarded to.
    pub target_url: String,
    /// The URL the proxy listens on.
    pub api_url: String,
    pub add_cors_headers: bool,
    /// Extra response headers, each `Name: Value`.
    pub extra_headers: Vec<String>,
    pub mock_config: Option<String>,
    pub save_request_directory: Option<String>,
    pub hide_headers: bool,
    pub hide_body: bool,
}

/// `s` without its trailing `/` characters.
pub open spec fn strip_trailing_slashes(s: Seq<char>) -> Seq<char>
    decreases s.len(),
{
    if s.len() > 0 && s.last() == '/' {
        strip_trailing_slashes(s.drop_last())
    } else {
        s
    }
}

/// The URL a request is forwarded to.
pub open spec fn target_url_spec(base: Seq<char>, path: Seq<char>, query: Seq<char>) -> Seq<char> {
    strip_trailing_slashes(base) + path_with_query_spec(path, query)
}

/// The base URL without trailing slashes, then the path, then `?query`
/// where there is a query.
pub fn target_url(base: &str, path: &str, query: &str) -> (r: String)
    ensures
        r@ == target_url_spec(base@, path@, query@),
{
    let mut end = base.unicode_len();
    assert(base@.subrange(0, end as int) =~= base@);
    while end > 0 && base.get_char(end - 1) == '/'
        invariant
            end <= base@.len(),
            strip_trailing_slashes(base@) == strip_trailing_slashes(
                base@.subrange(0, end as int),
            ),
        decreases end,
    {
        assert(base@.subrange(0, end as int).drop_last() =~= base@.subrange(0, end as int - 1));
        end = end - 1;
    }
    let mut r = base.substring_char(0, end).to_string();
    r.append(path_with_query(path, query).as_str());
    r
}

/// The request sent upstream.
pub struct ForwardRequest {
    pub method: String,
    pub url: String,
    pub headers: Vec<(String, String)>,
    /// The body, attached only where the inbound body is not empty.
    pub body: Option<Vec<u8>>,
}

/// `f` is the upstream request for `req`: same method, the target URL, all
/// headers but `host`, and the body where there is one.
pub open spec fn forwards(target: Seq<char>, req: InboundRequest, f: ForwardRequest) -> bool {
    &&& f.method@ == req.method@
    &&& f.url@ == target_url_spec(target, req.path@, req.query@)
    &&& pairs_view(f.headers@) == without_name(pairs_view(req.headers@), "host"@)
    &&& match f.body {
        Some(b) => req.body@.len() > 0 && b@ == req.body@,
        None => req.body@.len() == 0,
    }
}

/// Builds the upstream request for `req`.
pub fn forward_request(target: &str, req: &InboundRequest) -> (r: ForwardRequest)
    ensures
        forwards(target@, *req, r),
{
    let body = if req.body.len() > 0 {
        Some(vstd::slice::slice_to_vec(req.body.as_slice()))
    } else {
        None
    };
    ForwardRequest {
        method: req.method.clone(),
        url: target_url(target, req.path.as_str(), req.query.as_str()),
        headers: strip_host(&req.headers),
        body,
    }
}

/// Where a request goes.
pub enum Route {
    /// Answered by the rule at this position of the registry.
    Mock(usize),
    /// Sent upstream as this request.
    Forward(ForwardRequest),
}

/// `r` routes `req`: to the first matching rule of the registry where
/// there is one, else upstream.
pub open spec fn routes(
    target: Seq<char>,
    registry: Option<Seq<MockRule>>,
    req: InboundRequest,
    r: Route,
) -> bool {
    match r {
        Route::Mock(i) => registry matches Some(rules) && is_first_match(
            rules,
            req.method@,
            req.path@,
            Some(i),
        ),
        Route::Forward(f) => {
            &&& (registry matches Some(rules) ==> is_first_match(
                rules,
                req.method@,
                req.path@,
                None,
            ))
            &&& forwards(target, req, f)
        },
    }
}

pub open spec fn registry_view(registry: Option<MockRegistry>) -> Option<Seq<MockRule>> {
    match registry {
        Some(reg) => Some(reg@),
        None => None,
    }
}

/// Decides where a request goes: the first rule that matches its method and
/// path answers it; without one it is forwarded.
pub fn route(config: &ProxyConfig, registry: &Option<MockRegistry>, req: &InboundRequest) -> (r:
    Route)
    ensures
        routes(config.target_url@, registry_view(*registry), *req, r),
{
    match registry {
        Some(reg) => {
            match reg.find(req.method.as_str(), req.path.as_str()) {
                Some(i) => return Route::Mock(i),
                None => {},
            }
        },
        None => {},
    }
    Route::Forward(forward_request(config.target_url.as_str(), req))
}

/// A response as its status, headers and body.
pub open spec fn response_view(r: ProxyResponse) -> (u16, Seq<(Seq<char>, Seq<char>)>, Seq<u8>) {
    (r.status, pairs_view(r.headers@), r.body@)
}

pub open spec fn option_view(o: Option<String>) -> Option<Seq<char>> {
    match o {
        Some(s) => Some(s@),
        None => None,
    }
}

/// The reply of a rule: its status, its headers under the header policy,
/// and its resolved body (`contents` is what reading the body file gave).
pub open spec fn mock_response_spec(
    rule: MockRule,
    extras: Seq<Seq<char>>,
    add_cors: bool,
    contents: Option<Seq<char>>,
) -> (u16, Seq<(Seq<char>, Seq<char>)>, Seq<u8>) {
    (
        rule.status,
        transformed(with_entries(Seq::empty(), pairs_view(rule.headers@)), extras, add_cors),
        encode_utf8(resolved_body(rule.body@, contents)),
    )
}

/// Builds the reply of a rule. `contents` is what reading the rule's body
/// file gave, where it names one.
pub fn mock_response(config: &ProxyConfig, rule: &MockRule, contents: Option<String>) -> (r:
    ProxyResponse)
    ensures
        response_view(r) == mock_response_spec(
            *rule,
            strings_view(config.extra_headers@),
            config.add_cors_headers,
            option_view(contents),
        ),
{
    let mut headers = headers_from_pairs(&rule.headers);
    transform_headers(&mut headers, &config.extra_headers, config.add_cors_headers);
    let text = resolve_body(rule.body.as_str(), contents);
    let body = vstd::slice::slice_to_vec(text.as_str().as_bytes());
    ProxyResponse { status: rule.status, headers, body }
}

/// What the upstream target answered.
pub struct UpstreamResponse {
    pub status: u16,
    pub headers: Vec<(String, String)>,
    pub body: Vec<u8>,
}

/// Why forwarding failed, with the transport's description.
pub enum ForwardError {
    /// The request could not be sent or no response came.
    Send(String),
    /// The response body could not be read.
    ReadBody(String),
}

/// The plain-text description of a forwarding failure.
pub open spec fn error_text_spec(e: ForwardError) -> Seq<char> {
    match e {
        ForwardError::Send(m) => "Error forwarding request: "@ + m@,
        ForwardError::ReadBody(m) => "Error reading response body: "@ + m@,
    }
}

pub open spec fn bad_gateway_spec(e: ForwardError) -> (u16, Seq<(Seq<char>, Seq<char>)>, Seq<u8>) {
    (502, seq![("content-type"@, "text/plain"@)], encode_utf8(error_text_spec(e)))
}

/// The 502 response for a forwarding failure, its body the description.
pub fn bad_gateway(e: &ForwardError) -> (r: ProxyResponse)
    ensures
        response_view(r) == bad_gateway_spec(*e),
{
    let mut text = match e {
        ForwardError::Send(_) => "Error forwarding request: ".to_string(),
        ForwardError::ReadBody(_) => "Error reading response body: ".to_string(),
    };
    match e {
        ForwardError::Send(m) => text.append(m.as_str()),
        ForwardError::ReadBody(m) => text.append(m.as_str()),
    }
    let mut headers: Vec<(String, String)> = Vec::new();
    headers.push(("content-type".to_string(), "text/plain".to_string()));
    assert(pairs_view(headers@) =~= seq![("content-type"@, "text/plain"@)]);
    ProxyResponse { status: 502, headers, body: vstd::slice::slice_to_vec(text.as_str().as_bytes()) }
}

/// The response for a forwarded request: the upstream status and body with
/// its headers under the header policy, or a 502 where forwarding failed.
pub open spec fn forward_response_spec(
    extras: Seq<Seq<char>>,
    add_cors: bool,
    outcome: Result<UpstreamResponse, ForwardError>,
) -> (u16, Seq<(Seq<char>, Seq<char>)>, Seq<u8>) {
    match outcome {
        Ok(u) => (u.status, transformed(pairs_view(u.headers@), extras, add_cors), u.body@),
        Err(e) => bad_gateway_spec(e),
    }
}

/// Builds the response for a forwarded request from what forwarding gave.
pub fn forward_response(
    config: &ProxyConfig,
    outcome: Result<UpstreamResponse, ForwardError>,
) -> (r: ProxyResponse)
    ensures
        response_view(r) == forward_response_spec(
            strings_view(config.extra_headers@),
            config.add_cors_headers,
            outcome,
        ),
{
    match outcome {
        Ok(u) => {
            let mut headers = u.headers;
            transform_headers(&mut headers, &config.extra_headers, config.add_cors_headers);
            ProxyResponse { status: u.status, headers, body: u.body }
        },
        Err(e) => bad_gateway(&e),
    }
}

/// The recording of an answered request at `timestamp`, where a save
/// directory is configured; `body` is the response body.
pub fn record_exchange(config: &ProxyConfig, req: &InboundRequest, body: &[u8], timestamp: i64) -> (r:
    Option<Recording>)
    ensures
        r is Some <==> config.save_request_directory is Some,
        r matches Some(rec) ==> records(req.method@, req.path@, req.query@, body@, timestamp, rec),
{
    match &config.save_request_directory {
        Some(_) => Some(
            plan_recording(
                req.method.as_str(),
                req.path.as_str(),
                req.query.as_str(),
                body,
                timestamp,
            ),
        ),
        None => None,
    }
}

/// Answers a request from a rule: the reply, and its recording where a save
/// directory is configured.
pub fn finish_mock(
    config: &ProxyConfig,
    req: &InboundRequest,
    rule: &MockRule,
    contents: Option<String>,
    timestamp: i64,
) -> (r: (ProxyResponse, Option<Recording>))
    ensures
        response_view(r.0) == mock_response_spec(
            *rule,
            strings_view(config.extra_headers@),
            config.add_cors_headers,
            option_view(contents),
        ),
        r.1 is Some <==> config.save_request_directory is Some,
        r.1 matches Some(rec) ==> records(
            req.method@,
            req.path@,
            req.query@,
            r.0.body@,
            timestamp,
            rec,
        ),
{
    let resp = mock_response(config, rule, contents);
    let rec = record_exchange(config, req, resp.body.as_slice(), timestamp);
    (resp, rec)
}

/// Answers a forwarded request from what forwarding gave: the response,
/// and, where forwarding succeeded and a save directory is configured, its
/// recording. A failed forward is never recorded.
pub fn finish_forward(
    config: &ProxyConfig,
    req: &InboundRequest,
    outcome: Result<UpstreamResponse, ForwardError>,
    timestamp: i64,
) -> (r: (ProxyResponse, Option<Recording>))
    ensures
        response_view(r.0) == forward_response_spec(
            strings_view(config.extra_headers@),
            config.add_cors_headers,
            outcome,
        ),
        r.1 is Some <==> (config.save_request_directory is Some && outcome is Ok),
        r.1 matches Some(rec) ==> records(
            req.method@,
            req.path@,
            req.query@,
            r.0.body@,
            timestamp,
            rec,
        ),
{
    let rec = match &outcome {
        Ok(u) => record_exchange(config, req, u.body.as_slice(), timestamp),
        Err(_) => None,
    };
    let resp = forward_response(config, outcome);
    (resp, rec)
}

/// A request that matches a rule, and no earlier one, is answered by that
/// rule and never forwarded: the reply has the rule's status and its
/// resolved body.
pub proof fn lemma_matching_rule_answers(
    target: Seq<char>,
    rules: Seq<MockRule>,
    req: InboundRequest,
    i: int,
    r: Route,
    extras: Seq<Seq<char>>,
    add_cors: bool,
    contents: Option<Seq<char>>,
)
    requires
        0 <= i < rules.len(),
        rule_matches(rules[i], req.method@, req.path@),
        forall|j: int| 0 <= j < i ==> !rule_matches(#[trigger] rules[j], req.method@, req.path@),
        routes(target, Some(rules), req, r),
    ensures
        r == Route::Mock(i as usize),
        mock_response_spec(rules[i], extras, add_cors, contents).0 == rules[i].status,
        mock_response_spec(rules[i], extras, add_cors, contents).2 == encode_utf8(
            resolved_body(rules[i].body@, contents),
        ),
{
    match r {
        Route::Mock(k) => {
            if (k as int) < i {
            } else if (k as int) > i {
                assert(!rule_matches(rules[i], req.method@, req.path@));
            }
        },
        Route::Forward(_) => {
            assert(!rule_matches(rules[i], req.method@, req.path@));
        },
    }
}

proof fn lemma_same_ignoring_case_transitive(a: Seq<char>, b: Seq<char>, c: Seq<char>)
    requires
        same_ignoring_case(a, b),
        same_ignoring_case(b, c),
    ensures
        same_ignoring_case(a, c),
{
    assert forall|k: int| 0 <= k < a.len() implies #[trigger] crate::text::lower_code(a[k])
        == crate::text::lower_code(c[k]) by {
        assert(crate::text::lower_code(a[k]) == crate::text::lower_code(b[k]));
        assert(crate::text::lower_code(b[k]) == crate::text::lower_code(c[k]));
    }
}

/// Of two rules with the same method and path, the later one never answers.
pub proof fn lemma_earlier_rule_shadows_later(
    rules: Seq<MockRule>,
    i: int,
    j: int,
    method: Seq<char>,
    path: Seq<char>,
    r: Option<usize>,
)
    requires
        0 <= i < j < rules.len(),
        same_ignoring_case(rules[i].method@, rules[j].method@),
        same_ignoring_case(rules[i].path@, rules[j].path@),
        is_first_match(rules, method, path, r),
    ensures
        r matches Some(x) ==> x as int != j,
{
    if r matches Some(x) && x as int == j {
        lemma_same_ignoring_case_transitive(rules[i].method@, rules[j].method@, method);
        lemma_same_ignoring_case_transitive(rules[i].path@, rules[j].path@, path);
        assert(rule_matches(rules[i], method, path));
    }
}

/// Without rules, or without a registry, every request is forwarded, and
/// what is forwarded is built from that request alone.
pub proof fn lemma_empty_registry_forwards(
    target: Seq<char>,
    registry: Option<Seq<MockRule>>,
    req: InboundRequest,
    r: Route,
)
    requires
        registry matches Some(rules) ==> rules.len() == 0,
        routes(target, registry, req, r),
    ensures
        r matches Route::Forward(f) && forwards(target, req, f),
{
}

/// No header that is forwarded upstream is named `host`, in any case.
pub proof fn lemma_forward_drops_host(target: Seq<char>, req: InboundRequest, f: ForwardRequest)
    requires
        forwards(target, req, f),
    ensures
        forall|i: int|
            0 <= i < f.headers@.len() ==> !same_ignoring_case(#[trigger] f.headers@[i].0@, "host"@),
{
    crate::headers::lemma_forwarded_headers_have_no_host(pairs_view(req.headers@));
    assert forall|i: int| 0 <= i < f.headers@.len() implies !same_ignoring_case(
        #[trigger] f.headers@[i].0@,
        "host"@,
    ) by {
        assert(pairs_view(f.headers@)[i].0 == f.headers@[i].0@);
    }
}

/// A failed forward is answered with status 502 and a non-empty plain-text
/// body that describes the failure.
pub proof fn lemma_failed_forward_is_bad_gateway(
    extras: Seq<Seq<char>>,
    add_cors: bool,
    e: ForwardError,
)
    ensures
        forward_response_spec(extras, add_cors, Err(e)).0 == 502,
        forward_response_spec(extras, add_cors, Err(e)).1 == seq![("content-type"@, "text/plain"@)],
        forward_response_spec(extras, add_cors, Err(e)).2 == encode_utf8(error_text_spec(e)),
        error_text_spec(e).len() > 0,
{
    reveal_strlit("Error forwarding request: ");
    reveal_strlit("Error reading response body: ");
}

proof fn lemma_decimal_ends_in_digit(n: nat)
    ensures
        decimal_spec(n).len() > 0,
        digits().contains(decimal_spec(n).last()),
    decreases n,
{
    if n < 10 {
        assert(decimal_spec(n).last() == digits()[n as int]);
    } else {
        lemma_decimal_ends_in_digit(n / 10);
        assert(decimal_spec(n).last() == digits()[(n % 10) as int]);
    }
}

/// A recorded exchange without a query replays: the rule its capture entry
/// describes answers the same method and path with status 200, and, once
/// its body file is read back, with exactly the bytes of that file; those
/// are the recorded body itself unless it was JSON, which is saved
/// pretty-printed.
pub proof fn lemma_recorded_exchange_replays(
    method: Seq<char>,
    path: Seq<char>,
    body: Seq<u8>,
    timestamp: i64,
    rec: Recording,
    rule: MockRule,
    extras: Seq<Seq<char>>,
    add_cors: bool,
)
    requires
        valid_utf8(body),
        records(method, path, Seq::empty(), body, timestamp, rec),
        rule.method@ == method,
        rule.path@ == path_with_query_spec(path, Seq::empty()),
        rule.status == 200,
        rule.body@ == rec.file_name@,
    ensures
        is_first_match(seq![rule], method, path, Some(0)),
        mock_response_spec(rule, extras, add_cors, Some(decode_utf8(rec.file_body@))).0 == 200,
        mock_response_spec(rule, extras, add_cors, Some(decode_utf8(rec.file_body@))).2
            == rec.file_body@,
        pretty_json_of(decode_utf8(body)) is None ==> rec.file_body@ == body,
{
    broadcast use vstd::utf8::encode_utf8_decode_utf8, vstd::utf8::decode_utf8_encode_utf8,
        vstd::utf8::encode_utf8_valid_utf8;

    assert(seq![rule][0] == rule);
    reveal_strlit(".json");
    let name = rec.file_name@;
    let dec = signed_decimal_spec(timestamp as int);
    let n = if timestamp < 0 {
        (-timestamp) as nat
    } else {
        timestamp as nat
    };
    lemma_decimal_ends_in_digit(n);
    assert(dec.len() > 0 && dec.last() == decimal_spec(n).last());
    let k = name.len() - 4;
    assert(name.subrange(k, name.len() as int) =~= seq!['j', 's', 'o', 'n']);
    assert(name[k - 1] == '.');
    assert(name[k - 2] == dec.last());
    assert(name[k - 2] != '/');
    assert(is_file_body_spec(name));
}

} // verus!
