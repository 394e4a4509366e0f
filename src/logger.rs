//! What the exchange log shows: the request line, the request headers and
//! the bodies, with a fixed order of fallbacks for bodies (hidden, empty,
//! not UTF-8, blank, JSON, raw text).

use vstd::prelude::*;
use vstd::utf8::{decode_utf8, valid_utf8};
use crate::headers::{
    lemma_sorted_by_name_is_sorted, pairs_view, sort_by_name, sorted_by_name, strictly_sorted,
};
use crate::request::{path_with_query, path_with_query_spec};
use crate::text::{all_white, decimal, decimal_spec, is_blank};

verus! {

/// The pretty-printed (indented, multi-line) rendering of a JSON text, or
/// `None` where the text is not JSON.
pub uninterp spec fn pretty_json_of(s: Seq<char>) -> Option<Seq<char>>;

/// The pretty-printed JSON object whose members are these (name, string
/// value) pairs, in this order.
pub uninterp spec fn json_object_of(pairs: Seq<(Seq<char>, Seq<char>)>) -> Seq<char>;

/// Relies on serde_json: `from_str` parses the text into a `Value`, and
/// `to_string_pretty` renders that value indented. Both depend on the text
/// alone.
#[verifier::external_body]
pub(crate) fn pretty_json(s: &str) -> (r: Option<String>)
    ensures
        match r {
            Some(p) => pretty_json_of(s@) == Some(p@),
            None => pretty_json_of(s@) is None,
        },
{
    match serde_json::from_str::<serde_json::Value>(s) {
        Ok(v) => serde_json::to_string_pretty(&v).ok(),
        Err(_) => None,
    }
}

/// Relies on serde_json's `to_string_pretty` on a `Map` of string values.
/// The names are strictly increasing, so the map holds the pairs as they
/// are and renders them in this order.
#[verifier::external_body]
fn json_object(pairs: &Vec<(String, String)>) -> (r: String)
    requires
        strictly_sorted(pairs_view(pairs@)),
    ensures
        r@ == json_object_of(pairs_view(pairs@)),
{
    let map: serde_json::Map<String, serde_json::Value> = pairs.iter().map(
        |p| (p.0.clone(), serde_json::Value::String(p.1.clone())),
    ).collect();
    serde_json::to_string_pretty(&map).unwrap_or_default()
}

/// Relies on std's `String::from_utf8`: it accepts exactly the well-formed
/// UTF-8 byte sequences, and the text then is what they encode.
#[verifier::external_body]
pub(crate) fn utf8_text(b: &[u8]) -> (r: Option<String>)
    ensures
        r is Some <==> valid_utf8(b@),
        r matches Some(s) ==> s@ == decode_utf8(b@),
{
    String::from_utf8(b.to_vec()).ok()
}

/// How a body is shown in the log.
pub enum BodyLog {
    /// The body is hidden; only its length in bytes is shown.
    Hidden(usize),
    Empty,
    /// The bytes are not UTF-8 text.
    Binary,
    /// The text is nothing but whitespace.
    BlankText,
    /// The text is JSON, shown pretty-printed.
    Pretty(String),
    /// The text as it is.
    Raw(String),
}

/// `r` is how `body` is shown, the first rule that applies deciding:
/// hidden, empty, not UTF-8, blank, JSON, raw.
pub open spec fn describes(body: Seq<u8>, hide: bool, r: BodyLog) -> bool {
    let text = decode_utf8(body);
    if hide {
        r == BodyLog::Hidden(body.len() as usize)
    } else if body.len() == 0 {
        r is Empty
    } else if !valid_utf8(body) {
        r is Binary
    } else if all_white(text) {
        r is BlankText
    } else {
        match pretty_json_of(text) {
            Some(p) => r matches BodyLog::Pretty(q) && q@ == p,
            None => r matches BodyLog::Raw(q) && q@ == text,
        }
    }
}

/// Decides how a body is shown in the log.
pub fn describe_body(body: &[u8], hide: bool) -> (r: BodyLog)
    ensures
        describes(body@, hide, r),
{
    if hide {
        return BodyLog::Hidden(body.len());
    }
    if body.len() == 0 {
        return BodyLog::Empty;
    }
    let text = match utf8_text(body) {
        Some(t) => t,
        None => return BodyLog::Binary,
    };
    if is_blank(text.as_str()) {
        return BodyLog::BlankText;
    }
    match pretty_json(text.as_str()) {
        Some(p) => BodyLog::Pretty(p),
        None => BodyLog::Raw(text),
    }
}

/// The log line for a body under `prefix`.
pub open spec fn body_line_spec(prefix: Seq<char>, b: BodyLog) -> Seq<char> {
    match b {
        BodyLog::Hidden(n) => prefix + ": [hidden] ("@ + decimal_spec(n as nat) + " bytes)"@,
        BodyLog::Empty => prefix + ": [empty] (0 bytes)"@,
        BodyLog::Binary => prefix + ": [binary data]"@,
        BodyLog::BlankText => prefix + ": [empty string]"@,
        BodyLog::Pretty(p) => prefix + ":\n"@ + p@,
        BodyLog::Raw(t) => prefix + ":\n"@ + t@,
    }
}

impl BodyLog {
    /// The log line for this body under `prefix`.
    pub fn line(&self, prefix: &str) -> (r: String)
        ensures
            r@ == body_line_spec(prefix@, *self),
    {
        let mut r = prefix.to_string();
        match self {
            BodyLog::Hidden(n) => {
                r.append(": [hidden] (");
                r.append(decimal(*n as u64).as_str());
                r.append(" bytes)");
            },
            BodyLog::Empty => r.append(": [empty] (0 bytes)"),
            BodyLog::Binary => r.append(": [binary data]"),
            BodyLog::BlankText => r.append(": [empty string]"),
            BodyLog::Pretty(p) => {
                r.append(":\n");
                r.append(p.as_str());
            },
            BodyLog::Raw(t) => {
                r.append(":\n");
                r.append(t.as_str());
            },
        }
        r
    }
}

/// The log line for a body: how it is shown, under `prefix`.
pub fn body_log_line(body: &[u8], hide: bool, prefix: &str) -> (r: String)
    ensures
        exists|b: BodyLog| describes(body@, hide, b) && r@ == body_line_spec(prefix@, b),
{
    let b = describe_body(body, hide);
    b.line(prefix)
}

/// The line giving a body's size, where the body is shown and not empty.
pub fn body_size_line(body: &[u8], hide: bool, prefix: &str) -> (r: Option<String>)
    ensures
        r is Some <==> (!hide && body@.len() > 0),
        r matches Some(t) ==> t@ == prefix@ + " size: "@ + decimal_spec(body@.len()) + " bytes"@,
{
    if hide || body.len() == 0 {
        return None;
    }
    let mut r = prefix.to_string();
    r.append(" size: ");
    r.append(decimal(body.len() as u64).as_str());
    r.append(" bytes");
    Some(r)
}

/// The log line that announces a request: method, then path and query.
pub fn request_line(method: &str, path: &str, query: &str) -> (r: String)
    ensures
        r@ == method@ + " "@ + path_with_query_spec(path@, query@),
{
    let mut r = method.to_string();
    r.append(" ");
    r.append(path_with_query(path, query).as_str());
    r
}

/// The log text for the request headers: the JSON object of the headers in
/// name order, one per name and the last value kept, or a marker where
/// headers are hidden.
pub fn headers_log(h: &Vec<(String, String)>, hide: bool) -> (r: String)
    ensures
        r@ == if hide {
            "Request headers: [hidden]"@
        } else {
            "Request headers:\n"@ + json_object_of(sorted_by_name(pairs_view(h@)))
        },
{
    if hide {
        "Request headers: [hidden]".to_string()
    } else {
        let sorted = sort_by_name(h);
        proof {
            lemma_sorted_by_name_is_sorted(pairs_view(h@));
        }
        let mut r = "Request headers:\n".to_string();
        r.append(json_object(&sorted).as_str());
        r
    }
}

} // verus!
