//! Recording of exchanges: the name and contents of the body file, and the
//! mock-rule entry appended to the capture file, so that a recorded exchange
//! can be replayed as a mock later.

use vstd::prelude::*;
use vstd::utf8::{decode_utf8, encode_utf8, valid_utf8};
use crate::logger::{pretty_json, pretty_json_of, utf8_text};
use crate::request::{path_with_query, path_with_query_spec};
use crate::text::{signed_decimal, signed_decimal_spec};

verus! {

/// The name of the capture file inside the save directory.
pub open spec fn capture_file_name_spec() -> Seq<char> {
    "mocked-request.toml"@
}

/// The first lines of a new capture file.
pub open spec fn capture_header_spec() -> Seq<char> {
    "# Mock configuration file generated by proxxyy\n# Each entry represents a mock endpoint\n\n"@
}

pub open spec fn is_ascii_alnum(c: char) -> bool {
    ('0' <= c && c <= '9') || ('A' <= c && c <= 'Z') || ('a' <= c && c <= 'z')
}

/// A character as it stands in a file name: ASCII letters, digits and `_`
/// stay, anything else becomes `_`.
pub open spec fn safe_char(c: char) -> char {
    if is_ascii_alnum(c) || c == '_' {
        c
    } else {
        '_'
    }
}

pub open spec fn sanitized(s: Seq<char>) -> Seq<char> {
    s.map_values(|c: char| safe_char(c))
}

/// The base of a body file's name: the path without its leading `/`, then
/// `_` and the query where there is one, every unsafe character made `_`.
pub open spec fn base_name_spec(path: Seq<char>, query: Seq<char>) -> Seq<char> {
    let p = if path.len() > 0 && path[0] == '/' {
        path.drop_first()
    } else {
        path
    };
    let q = if query.len() == 0 {
        Seq::empty()
    } else {
        seq!['_'] + query
    };
    sanitized(p + q)
}

/// The name of the body file of an exchange recorded at `timestamp`.
pub open spec fn body_file_name_spec(path: Seq<char>, query: Seq<char>, timestamp: int) -> Seq<
    char,
> {
    base_name_spec(path, query) + seq!['_'] + signed_decimal_spec(timestamp) + ".json"@
}

pub open spec fn hex_digits() -> Seq<char> {
    seq!['0', '1', '2', '3', '4', '5', '6', '7', '8', '9', 'A', 'B', 'C', 'D', 'E', 'F']
}

/// A character as it stands inside a TOML basic string: `"` and `\`
/// escaped, the control characters that TOML forbids there written as
/// `\b`, `\n`, `\f`, `\r` or `\u00XX`; tab and everything else as it is.
pub open spec fn escaped_char(c: char) -> Seq<char> {
    let u = c as u32;
    if c == '"' || c == '\\' {
        seq!['\\', c]
    } else if u == 8 {
        seq!['\\', 'b']
    } else if u == 10 {
        seq!['\\', 'n']
    } else if u == 12 {
        seq!['\\', 'f']
    } else if u == 13 {
        seq!['\\', 'r']
    } else if (u < 32 && u != 9) || u == 127 {
        seq!['\\', 'u', '0', '0', hex_digits()[(u / 16) as int], hex_digits()[(u % 16) as int]]
    } else {
        seq![c]
    }
}

/// The escaped form of the one character of `piece`.
fn escaped_piece(piece: &str) -> (r: String)
    requires
        piece@.len() == 1,
    ensures
        r@ == escaped_char(piece@[0]),
{
    let c = piece.get_char(0);
    let u = c as u32;
    proof {
        reveal_strlit("\\\"");
        reveal_strlit("\\\\");
        reveal_strlit("\\b");
        reveal_strlit("\\n");
        reveal_strlit("\\f");
        reveal_strlit("\\r");
        reveal_strlit("\\u00");
        reveal_strlit("0123456789ABCDEF");
    }
    if c == '"' {
        "\\\"".to_string()
    } else if c == '\\' {
        "\\\\".to_string()
    } else if u == 8 {
        "\\b".to_string()
    } else if u == 10 {
        "\\n".to_string()
    } else if u == 12 {
        "\\f".to_string()
    } else if u == 13 {
        "\\r".to_string()
    } else if (u < 32 && u != 9) || u == 127 {
        let hex = "0123456789ABCDEF";
        assert(hex@ =~= hex_digits());
        let hi = (u / 16) as usize;
        let lo = (u % 16) as usize;
        let mut r = "\\u00".to_string();
        r.append(hex.substring_char(hi, hi + 1));
        r.append(hex.substring_char(lo, lo + 1));
        assert(r@ =~= escaped_char(c));
        r
    } else {
        let r = piece.to_string();
        assert(r@ =~= seq![c]);
        r
    }
}

/// `s` as it stands inside a TOML basic string.
pub open spec fn escaped(s: Seq<char>) -> Seq<char>
    decreases s.len(),
{
    if s.len() == 0 {
        s
    } else {
        escaped(s.drop_last()) + escaped_char(s.last())
    }
}

/// The capture-file entry of a recorded exchange: a mock rule for the
/// method and the path with its query, status 200, whose body is the body
/// file.
pub open spec fn capture_entry_spec(
    method: Seq<char>,
    path: Seq<char>,
    query: Seq<char>,
    file_name: Seq<char>,
) -> Seq<char> {
    "[[mocks]]\nmethod = \""@ + escaped(method) + "\"\npath = \""@ + escaped(
        path_with_query_spec(path, query),
    ) + "\"\nstatus = 200\nbody = \""@ + escaped(file_name) + "\"\n"@
}

/// What the body file holds: the pretty-printed JSON where the body is JSON
/// text, else the body as it came.
pub open spec fn saved_body_spec(body: Seq<u8>) -> Seq<u8> {
    if valid_utf8(body) {
        match pretty_json_of(decode_utf8(body)) {
            Some(p) => encode_utf8(p),
            None => body,
        }
    } else {
        body
    }
}

/// What the capture file held before an append.
pub enum CaptureFile {
    /// There was no capture file.
    Absent,
    /// Its contents.
    Existing(String),
    /// It exists but could not be read.
    Unreadable,
}

/// How the capture file is written.
pub enum CaptureWrite {
    /// Write the file with exactly this text.
    Replace(String),
    /// Add this text at the end of the file, leaving what it holds alone.
    Append(String),
}

/// The write that adds `entry` to the capture file: a new file starts with
/// the header lines; a file that was read gets its text, a newline and the
/// entry; a file that exists but could not be read gets a newline and the
/// entry appended, so that neither its entries nor the new one are lost.
pub open spec fn capture_write_spec(existing: CaptureFile, entry: Seq<char>) -> (bool, Seq<char>) {
    match existing {
        CaptureFile::Existing(c) => (false, c@ + seq!['\n'] + entry),
        CaptureFile::Absent => (false, capture_header_spec() + entry),
        CaptureFile::Unreadable => (true, seq!['\n'] + entry),
    }
}

/// A capture write as whether it appends, and its text.
pub open spec fn capture_write_view(w: CaptureWrite) -> (bool, Seq<char>) {
    match w {
        CaptureWrite::Replace(t) => (false, t@),
        CaptureWrite::Append(t) => (true, t@),
    }
}

/// Replaces every character but ASCII letters, digits and `_` with `_`.
pub fn sanitize(s: &str) -> (r: String)
    ensures
        r@ == sanitized(s@),
{
    let n = s.unicode_len();
    let mut r = String::new();
    let mut i: usize = 0;
    while i < n
        invariant
            n == s@.len(),
            i <= n,
            r@ == sanitized(s@.take(i as int)),
        decreases n - i,
    {
        let c = s.get_char(i);
        let ghost before = r@;
        if ('0' <= c && c <= '9') || ('A' <= c && c <= 'Z') || ('a' <= c && c <= 'z') || c == '_' {
            let piece = s.substring_char(i, i + 1);
            assert(piece@ =~= seq![c]);
            r.append(piece);
        } else {
            proof {
                reveal_strlit("_");
            }
            assert("_"@ =~= seq!['_']);
            r.append("_");
        }
        assert(r@ =~= before.push(safe_char(c)));
        assert(sanitized(s@.take(i as int + 1)) =~= sanitized(s@.take(i as int)).push(
            safe_char(c),
        ));
        i = i + 1;
    }
    assert(s@.take(n as int) =~= s@);
    r
}

/// The base of a body file's name for a request path and query.
pub fn base_name(path: &str, query: &str) -> (r: String)
    ensures
        r@ == base_name_spec(path@, query@),
{
    proof {
        reveal_strlit("_");
    }
    let n = path.unicode_len();
    let mut joined = if n > 0 && path.get_char(0) == '/' {
        let rest = path.substring_char(1, n);
        assert(rest@ =~= path@.drop_first());
        rest.to_string()
    } else {
        path.to_string()
    };
    if query.unicode_len() > 0 {
        joined.append("_");
        joined.append(query);
    }
    let r = sanitize(joined.as_str());
    proof {
        let p = if path@.len() > 0 && path@[0] == '/' {
            path@.drop_first()
        } else {
            path@
        };
        if query@.len() == 0 {
            assert(p + Seq::empty() =~= p);
        } else {
            assert(p + "_"@ + query@ =~= p + (seq!['_'] + query@));
        }
    }
    r
}

/// The name of the body file of an exchange recorded at `timestamp`.
pub fn body_file_name(path: &str, query: &str, timestamp: i64) -> (r: String)
    ensures
        r@ == body_file_name_spec(path@, query@, timestamp as int),
{
    proof {
        reveal_strlit("_");
    }
    let mut r = base_name(path, query);
    r.append("_");
    r.append(signed_decimal(timestamp).as_str());
    r.append(".json");
    r
}

/// Escapes a text for a TOML basic string.
pub fn escape(s: &str) -> (r: String)
    ensures
        r@ == escaped(s@),
{
    let n = s.unicode_len();
    let mut r = String::new();
    let mut i: usize = 0;
    while i < n
        invariant
            n == s@.len(),
            i <= n,
            r@ == escaped(s@.take(i as int)),
        decreases n - i,
    {
        let c = s.get_char(i);
        let ghost before = r@;
        assert(s@.take(i as int + 1).drop_last() =~= s@.take(i as int));
        assert(s@.take(i as int + 1).last() == c);
        let piece = s.substring_char(i, i + 1);
        assert(piece@ =~= seq![c]);
        r.append(escaped_piece(piece).as_str());
        assert(r@ =~= before + escaped_char(c));
        assert(r@ =~= escaped(s@.take(i as int + 1)));
        i = i + 1;
    }
    assert(s@.take(n as int) =~= s@);
    r
}

/// The capture-file entry of a recorded exchange.
pub fn capture_entry(method: &str, path: &str, query: &str, file_name: &str) -> (r: String)
    ensures
        r@ == capture_entry_spec(method@, path@, query@, file_name@),
{
    let mut r = "[[mocks]]\nmethod = \"".to_string();
    r.append(escape(method).as_str());
    r.append("\"\npath = \"");
    r.append(escape(path_with_query(path, query).as_str()).as_str());
    r.append("\"\nstatus = 200\nbody = \"");
    r.append(escape(file_name).as_str());
    r.append("\"\n");
    r
}

/// What the body file of a response body holds.
pub fn saved_body(body: &[u8]) -> (r: Vec<u8>)
    ensures
        r@ == saved_body_spec(body@),
{
    match utf8_text(body) {
        Some(text) => match pretty_json(text.as_str()) {
            Some(p) => vstd::slice::slice_to_vec(p.as_str().as_bytes()),
            None => vstd::slice::slice_to_vec(body),
        },
        None => vstd::slice::slice_to_vec(body),
    }
}

/// The write that adds `entry` to the capture file.
pub fn capture_content(existing: CaptureFile, entry: &str) -> (r: CaptureWrite)
    ensures
        capture_write_view(r) == capture_write_spec(existing, entry@),
{
    proof {
        reveal_strlit("\n");
    }
    match existing {
        CaptureFile::Existing(c) => {
            let mut r = c;
            r.append("\n");
            r.append(entry);
            CaptureWrite::Replace(r)
        },
        CaptureFile::Absent => {
            let mut r =
                "# Mock configuration file generated by proxxyy\n# Each entry represents a mock endpoint\n\n".to_string();
            r.append(entry);
            CaptureWrite::Replace(r)
        },
        CaptureFile::Unreadable => {
            let mut r = "\n".to_string();
            r.append(entry);
            CaptureWrite::Append(r)
        },
    }
}

/// The name of the capture file inside the save directory.
pub fn capture_file_name() -> (r: String)
    ensures
        r@ == capture_file_name_spec(),
{
    "mocked-request.toml".to_string()
}

/// The artifacts of one recorded exchange.
pub struct Recording {
    pub timestamp: i64,
    /// The body file's name, relative to the save directory.
    pub file_name: String,
    pub file_body: Vec<u8>,
    /// The entry to append to the capture file.
    pub entry: String,
}

/// `r` records the exchange of `method`, `path`, `query` with response
/// `body` at `timestamp`.
pub open spec fn records(
    method: Seq<char>,
    path: Seq<char>,
    query: Seq<char>,
    body: Seq<u8>,
    timestamp: i64,
    r: Recording,
) -> bool {
    &&& r.timestamp == timestamp
    &&& r.file_name@ == body_file_name_spec(path, query, timestamp as int)
    &&& r.file_body@ == saved_body_spec(body)
    &&& r.entry@ == capture_entry_spec(method, path, query, r.file_name@)
}

/// The artifacts of an exchange recorded at `timestamp`.
pub fn plan_recording(method: &str, path: &str, query: &str, body: &[u8], timestamp: i64) -> (r:
    Recording)
    ensures
        records(method@, path@, query@, body@, timestamp, r),
{
    let file_name = body_file_name(path, query, timestamp);
    let entry = capture_entry(method, path, query, file_name.as_str());
    Recording { timestamp, file_name, file_body: saved_body(body), entry }
}

} // verus!
