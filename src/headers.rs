//! Header lists and the response header policy: removal of the `host`
//! header, user-supplied extra headers and CORS headers.
//!
//! A header list is a `Vec` of (name, value) pairs. Names set by this module
//! are in ASCII lower case, and names are compared ignoring ASCII case.

use vstd::prelude::*;
use crate::text::{eq_ignore_ascii_case, same_ignoring_case, trim, trimmed};

verus! {

/// A header list as pairs of character sequences.
pub open spec fn pairs_view(v: Seq<(String, String)>) -> Seq<(Seq<char>, Seq<char>)> {
    v.map_values(|p: (String, String)| (p.0@, p.1@))
}

/// `h` without the entries named `n`, in their order.
pub open spec fn without_name(h: Seq<(Seq<char>, Seq<char>)>, n: Seq<char>) -> Seq<
    (Seq<char>, Seq<char>),
>
    decreases h.len(),
{
    if h.len() == 0 {
        h
    } else {
        let rest = without_name(h.drop_last(), n);
        if same_ignoring_case(h.last().0, n) {
            rest
        } else {
            rest.push(h.last())
        }
    }
}

/// `h` with `n` set to `v`: earlier entries of that name go, the new one
/// comes last.
pub open spec fn set_spec(h: Seq<(Seq<char>, Seq<char>)>, n: Seq<char>, v: Seq<char>) -> Seq<
    (Seq<char>, Seq<char>),
> {
    without_name(h, n).push((n, v))
}

/// Some entry of `h` is named `n`.
pub open spec fn has_name(h: Seq<(Seq<char>, Seq<char>)>, n: Seq<char>) -> bool {
    exists|i: int| 0 <= i < h.len() && same_ignoring_case(#[trigger] h[i].0, n)
}

/// The characters that an HTTP header name may hold.
pub open spec fn is_token_char(c: char) -> bool {
    let u = c as u32;
    u == 33 || u == 34 || u == 35 || u == 36 || u == 37 || u == 38 || u == 39 || u == 42 || u
        == 43 || u == 45 || u == 46 || (48 <= u && u <= 57) || (65 <= u && u <= 90) || u == 94
        || u == 95 || u == 96 || (97 <= u && u <= 122) || u == 124 || u == 126
}

pub open spec fn valid_header_name(s: Seq<char>) -> bool {
    &&& 1 <= s.len() <= 65535
    &&& forall|i: int| 0 <= i < s.len() ==> is_token_char(#[trigger] s[i])
}

/// Tab, and every character from space upwards but DEL.
pub open spec fn valid_header_value(s: Seq<char>) -> bool {
    forall|i: int|
        0 <= i < s.len() ==> #[trigger] s[i] == '\t' || (s[i] as u32 >= 32 && s[i] as u32 != 127)
}

pub open spec fn lower_char(c: char) -> char {
    if 'A' <= c && c <= 'Z' {
        ((c as u8) + 32) as u8 as char
    } else {
        c
    }
}

pub open spec fn lowered(s: Seq<char>) -> Seq<char> {
    s.map_values(|c: char| lower_char(c))
}

/// Relies on http's `HeaderName::from_bytes` (reached through warp): it
/// accepts 1 to 65535 bytes, each a token character, and normalises ASCII
/// letters to lower case; `as_str` gives that normalised name back.
#[verifier::external_body]
fn normalized_header_name(s: &str) -> (r: Option<String>)
    ensures
        r is Some <==> valid_header_name(s@),
        r matches Some(n) ==> n@ == lowered(s@),
{
    warp::http::header::HeaderName::from_bytes(s.as_bytes()).ok().map(|n| n.as_str().to_string())
}

/// Relies on http's `HeaderValue::from_str` (reached through warp): it
/// accepts a string whose bytes are all tab or in 32..=255 but 127. Bytes of
/// a non-ASCII character are all 128 or more.
#[verifier::external_body]
fn header_value_accepted(s: &str) -> (r: bool)
    ensures
        r == valid_header_value(s@),
{
    warp::http::header::HeaderValue::from_str(s).is_ok()
}

/// Position `i` holds the first `:` of `s`.
pub open spec fn colon_at(s: Seq<char>, i: int) -> bool {
    &&& 0 <= i < s.len()
    &&& s[i] == ':'
    &&& forall|j: int| 0 <= j < i ==> #[trigger] s[j] != ':'
}

pub open spec fn colon_position(s: Seq<char>) -> Option<int> {
    if exists|i: int| colon_at(s, i) {
        Some(choose|i: int| colon_at(s, i))
    } else {
        None
    }
}

/// What an extra-header string `Name: Value` adds: split at the first
/// colon, both sides trimmed, the name normalised; nothing where the colon
/// is missing or either side is not a valid header name or value.
pub open spec fn extra_header_spec(s: Seq<char>) -> Option<(Seq<char>, Seq<char>)> {
    match colon_position(s) {
        None => None,
        Some(i) => header_entry_spec(trimmed(s.take(i)), trimmed(s.skip(i + 1))),
    }
}

/// The entry that a name and a value make: the name normalised; nothing
/// where either is not a valid header name or value.
pub open spec fn header_entry_spec(n: Seq<char>, v: Seq<char>) -> Option<(Seq<char>, Seq<char>)> {
    if valid_header_name(n) && valid_header_value(v) {
        Some((lowered(n), v))
    } else {
        None
    }
}

/// The headers after setting each valid (name, value) pair of `pairs` in
/// order; invalid pairs are skipped.
pub open spec fn with_entries(
    h: Seq<(Seq<char>, Seq<char>)>,
    pairs: Seq<(Seq<char>, Seq<char>)>,
) -> Seq<(Seq<char>, Seq<char>)>
    decreases pairs.len(),
{
    if pairs.len() == 0 {
        h
    } else {
        let before = with_entries(h, pairs.drop_last());
        match header_entry_spec(pairs.last().0, pairs.last().1) {
            Some((n, v)) => set_spec(before, n, v),
            None => before,
        }
    }
}

/// The headers after applying each extra-header string in order.
pub open spec fn with_extras(h: Seq<(Seq<char>, Seq<char>)>, extras: Seq<Seq<char>>) -> Seq<
    (Seq<char>, Seq<char>),
>
    decreases extras.len(),
{
    if extras.len() == 0 {
        h
    } else {
        let before = with_extras(h, extras.drop_last());
        match extra_header_spec(extras.last()) {
            Some((n, v)) => set_spec(before, n, v),
            None => before,
        }
    }
}

pub open spec fn strings_view(v: Seq<String>) -> Seq<Seq<char>> {
    v.map_values(|s: String| s@)
}

proof fn lemma_colon_unique(s: Seq<char>, i: int)
    requires
        colon_at(s, i),
    ensures
        colon_position(s) == Some(i),
{
    let j = choose|j: int| colon_at(s, j);
    assert(colon_at(s, j));
    if j < i {
        assert(s[j] != ':');
    } else if i < j {
        assert(s[i] != ':');
    }
}

/// Parses an extra-header string `Name: Value` into a normalised name and
/// a trimmed value; `None` where it is malformed.
pub fn parse_extra_header(s: &str) -> (r: Option<(String, String)>)
    ensures
        match r {
            Some(p) => extra_header_spec(s@) == Some((p.0@, p.1@)),
            None => extra_header_spec(s@) is None,
        },
{
    let n = s.unicode_len();
    let mut i: usize = 0;
    while i < n && s.get_char(i) != ':'
        invariant
            n == s@.len(),
            i <= n,
            forall|j: int| 0 <= j < i ==> #[trigger] s@[j] != ':',
        decreases n - i,
    {
        i = i + 1;
    }
    if i == n {
        assert(!exists|k: int| colon_at(s@, k));
        return None;
    }
    proof {
        lemma_colon_unique(s@, i as int);
    }
    let name_part = s.substring_char(0, i);
    let value_part = s.substring_char(i + 1, n);
    assert(name_part@ =~= s@.take(i as int));
    assert(value_part@ =~= s@.skip(i as int + 1));
    header_entry(trim(name_part), trim(value_part))
}

/// A header entry from a name and a value, the name normalised; `None`
/// where either is not valid.
pub fn header_entry(name: &str, value: &str) -> (r: Option<(String, String)>)
    ensures
        match r {
            Some(p) => header_entry_spec(name@, value@) == Some((p.0@, p.1@)),
            None => header_entry_spec(name@, value@) is None,
        },
{
    match normalized_header_name(name) {
        Some(norm) => {
            if header_value_accepted(value) {
                Some((norm, value.to_string()))
            } else {
                None
            }
        },
        None => None,
    }
}

/// The header list that a set of (name, value) pairs makes, invalid pairs
/// skipped.
pub fn headers_from_pairs(pairs: &Vec<(String, String)>) -> (r: Vec<(String, String)>)
    ensures
        pairs_view(r@) == with_entries(Seq::empty(), pairs_view(pairs@)),
{
    let mut h: Vec<(String, String)> = Vec::new();
    let mut i: usize = 0;
    assert(pairs_view(h@) =~= Seq::<(Seq<char>, Seq<char>)>::empty());
    while i < pairs.len()
        invariant
            i <= pairs@.len(),
            pairs_view(h@) == with_entries(Seq::empty(), pairs_view(pairs@.take(i as int))),
        decreases pairs@.len() - i,
    {
        proof {
            assert(pairs_view(pairs@.take(i as int + 1)).drop_last() =~= pairs_view(
                pairs@.take(i as int),
            ));
        }
        match header_entry(pairs[i].0.as_str(), pairs[i].1.as_str()) {
            Some(p) => {
                set_header(&mut h, p.0, p.1);
            },
            None => {},
        }
        i = i + 1;
    }
    assert(pairs@.take(pairs@.len() as int) =~= pairs@);
    h
}

proof fn lemma_pairs_view_push(v: Seq<(String, String)>, p: (String, String))
    ensures
        pairs_view(v.push(p)) == pairs_view(v).push((p.0@, p.1@)),
{
    assert(pairs_view(v.push(p)) =~= pairs_view(v).push((p.0@, p.1@)));
}

/// The entries of `h` whose name is not `name`, in their order.
pub fn remove_header(h: &Vec<(String, String)>, name: &str) -> (r: Vec<(String, String)>)
    ensures
        pairs_view(r@) == without_name(pairs_view(h@), name@),
{
    let mut out: Vec<(String, String)> = Vec::new();
    let mut i: usize = 0;
    while i < h.len()
        invariant
            i <= h@.len(),
            pairs_view(out@) == without_name(pairs_view(h@.take(i as int)), name@),
        decreases h@.len() - i,
    {
        proof {
            assert(h@.take(i as int + 1) =~= h@.take(i as int).push(h@[i as int]));
            lemma_pairs_view_push(h@.take(i as int), h@[i as int]);
            assert(pairs_view(h@.take(i as int + 1)).drop_last() =~= pairs_view(
                h@.take(i as int),
            ));
        }
        let entry = &h[i];
        if !eq_ignore_ascii_case(entry.0.as_str(), name) {
            let copy = (entry.0.clone(), entry.1.clone());
            proof {
                lemma_pairs_view_push(out@, copy);
            }
            out.push(copy);
        }
        i = i + 1;
    }
    assert(h@.take(h@.len() as int) =~= h@);
    out
}

/// Sets header `name` to `value`, replacing every entry of that name.
pub fn set_header(h: &mut Vec<(String, String)>, name: String, value: String)
    ensures
        pairs_view(final(h)@) == set_spec(pairs_view(old(h)@), name@, value@),
{
    let mut out = remove_header(h, name.as_str());
    let entry = (name, value);
    proof {
        lemma_pairs_view_push(out@, entry);
    }
    out.push(entry);
    *h = out;
}

/// Whether some entry of `h` is named `name`.
pub fn has_header(h: &Vec<(String, String)>, name: &str) -> (r: bool)
    ensures
        r == has_name(pairs_view(h@), name@),
{
    let mut i: usize = 0;
    while i < h.len()
        invariant
            i <= h@.len(),
            forall|j: int| 0 <= j < i ==> !same_ignoring_case(#[trigger] h@[j].0@, name@),
        decreases h@.len() - i,
    {
        if eq_ignore_ascii_case(h[i].0.as_str(), name) {
            assert(pairs_view(h@)[i as int].0 == h@[i as int].0@);
            return true;
        }
        i = i + 1;
    }
    assert forall|j: int| 0 <= j < h@.len() implies !same_ignoring_case(
        #[trigger] pairs_view(h@)[j].0,
        name@,
    ) by {
        assert(pairs_view(h@)[j].0 == h@[j].0@);
    }
    false
}

pub open spec fn content_type_name() -> Seq<char> {
    "content-type"@
}

/// The headers after the CORS policy: three `access-control-allow-*`
/// headers set, and `content-type: application/json` added where no
/// content type is present.
pub open spec fn with_cors(h: Seq<(Seq<char>, Seq<char>)>) -> Seq<(Seq<char>, Seq<char>)> {
    let h1 = set_spec(h, "access-control-allow-origin"@, "*"@);
    let h2 = set_spec(h1, "access-control-allow-methods"@, "GET, POST, PUT, DELETE, OPTIONS"@);
    let h3 = set_spec(h2, "access-control-allow-headers"@, "Content-Type, Authorization"@);
    if has_name(h3, content_type_name()) {
        h3
    } else {
        h3.push((content_type_name(), "application/json"@))
    }
}

/// The whole response header policy: extra headers first, then CORS.
pub open spec fn transformed(
    h: Seq<(Seq<char>, Seq<char>)>,
    extras: Seq<Seq<char>>,
    add_cors: bool,
) -> Seq<(Seq<char>, Seq<char>)> {
    if add_cors {
        with_cors(with_extras(h, extras))
    } else {
        with_extras(h, extras)
    }
}

/// Applies each extra-header string in order; malformed ones are skipped.
pub fn apply_extra_headers(h: &mut Vec<(String, String)>, extras: &Vec<String>)
    ensures
        pairs_view(final(h)@) == with_extras(pairs_view(old(h)@), strings_view(extras@)),
{
    let ghost start = pairs_view(h@);
    let mut i: usize = 0;
    while i < extras.len()
        invariant
            i <= extras@.len(),
            pairs_view(h@) == with_extras(start, strings_view(extras@.take(i as int))),
        decreases extras@.len() - i,
    {
        proof {
            assert(strings_view(extras@.take(i as int + 1)).drop_last() =~= strings_view(
                extras@.take(i as int),
            ));
        }
        match parse_extra_header(extras[i].as_str()) {
            Some(p) => {
                set_header(h, p.0, p.1);
            },
            None => {},
        }
        i = i + 1;
    }
    assert(extras@.take(extras@.len() as int) =~= extras@);
}

/// Applies the CORS policy.
pub fn apply_cors(h: &mut Vec<(String, String)>)
    ensures
        pairs_view(final(h)@) == with_cors(pairs_view(old(h)@)),
{
    set_header(h, "access-control-allow-origin".to_string(), "*".to_string());
    set_header(
        h,
        "access-control-allow-methods".to_string(),
        "GET, POST, PUT, DELETE, OPTIONS".to_string(),
    );
    set_header(
        h,
        "access-control-allow-headers".to_string(),
        "Content-Type, Authorization".to_string(),
    );
    if !has_header(h, "content-type") {
        let entry = ("content-type".to_string(), "application/json".to_string());
        proof {
            lemma_pairs_view_push(h@, entry);
        }
        h.push(entry);
    }
}

/// Applies the response header policy: the extra headers, then, where
/// `add_cors` holds, the CORS headers.
pub fn transform_headers(h: &mut Vec<(String, String)>, extras: &Vec<String>, add_cors: bool)
    ensures
        pairs_view(final(h)@) == transformed(pairs_view(old(h)@), strings_view(extras@), add_cors),
{
    apply_extra_headers(h, extras);
    if add_cors {
        apply_cors(h);
    }
}

/// The headers of an inbound request as they are forwarded: all but `host`.
pub fn strip_host(h: &Vec<(String, String)>) -> (r: Vec<(String, String)>)
    ensures
        pairs_view(r@) == without_name(pairs_view(h@), "host"@),
{
    remove_header(h, "host")
}

/// Every entry of `without_name(h, n)` is an entry of `h` not named `n`.
pub proof fn lemma_without_name_subset(h: Seq<(Seq<char>, Seq<char>)>, n: Seq<char>)
    ensures
        forall|i: int|
            0 <= i < without_name(h, n).len() ==> h.contains(#[trigger] without_name(h, n)[i])
                && !same_ignoring_case(without_name(h, n)[i].0, n),
    decreases h.len(),
{
    if h.len() > 0 {
        lemma_without_name_subset(h.drop_last(), n);
        let rest = without_name(h.drop_last(), n);
        assert forall|i: int| 0 <= i < without_name(h, n).len() implies h.contains(
            #[trigger] without_name(h, n)[i],
        ) && !same_ignoring_case(without_name(h, n)[i].0, n) by {
            if i < rest.len() {
                let j = choose|j: int| 0 <= j < h.drop_last().len() && h.drop_last()[j] == rest[i];
                assert(h[j] == rest[i]);
            } else {
                assert(h[h.len() - 1] == h.last());
            }
        }
    }
}

/// `without_name(h, n)` keeps every entry of `h` not named `n`.
pub proof fn lemma_without_name_keeps(h: Seq<(Seq<char>, Seq<char>)>, n: Seq<char>, j: int)
    requires
        0 <= j < h.len(),
        !same_ignoring_case(h[j].0, n),
    ensures
        without_name(h, n).contains(h[j]),
    decreases h.len(),
{
    let rest = without_name(h.drop_last(), n);
    if j == h.len() - 1 {
        assert(without_name(h, n)[rest.len() as int] == h[j]);
    } else {
        lemma_without_name_keeps(h.drop_last(), n, j);
        assert(h.drop_last()[j] == h[j]);
        let k = choose|k: int| 0 <= k < rest.len() && rest[k] == h[j];
        assert(without_name(h, n)[k] == h[j]);
    }
}

/// Names of different lengths never match, whatever their case.
proof fn lemma_set_keeps_other_names(
    h: Seq<(Seq<char>, Seq<char>)>,
    n: Seq<char>,
    v: Seq<char>,
    m: Seq<char>,
)
    requires
        n.len() != m.len(),
    ensures
        has_name(set_spec(h, n, v), m) == has_name(h, m),
        forall|j: int|
            0 <= j < h.len() && same_ignoring_case(h[j].0, m) ==> #[trigger] set_spec(
                h,
                n,
                v,
            ).contains(h[j]),
{
    lemma_without_name_subset(h, n);
    let r = set_spec(h, n, v);
    assert forall|j: int|
        0 <= j < h.len() && same_ignoring_case(h[j].0, m) implies #[trigger] r.contains(h[j]) by {
        lemma_without_name_keeps(h, n, j);
        let k = choose|k: int| 0 <= k < without_name(h, n).len() && without_name(h, n)[k] == h[j];
        assert(r[k] == h[j]);
    }
    if has_name(h, m) {
        let j = choose|j: int| 0 <= j < h.len() && same_ignoring_case(#[trigger] h[j].0, m);
        assert(r.contains(h[j]));
        let k = choose|k: int| 0 <= k < r.len() && r[k] == h[j];
        assert(same_ignoring_case(r[k].0, m));
    }
    if has_name(r, m) {
        let k = choose|k: int| 0 <= k < r.len() && same_ignoring_case(#[trigger] r[k].0, m);
        if k < without_name(h, n).len() {
            assert(r[k] == without_name(h, n)[k]);
            let j = choose|j: int| 0 <= j < h.len() && h[j] == without_name(h, n)[k];
            assert(same_ignoring_case(h[j].0, m));
        }
    }
}

/// No header that is forwarded is named `host`, in any case.
pub proof fn lemma_forwarded_headers_have_no_host(h: Seq<(Seq<char>, Seq<char>)>)
    ensures
        forall|i: int|
            0 <= i < without_name(h, "host"@).len() ==> !same_ignoring_case(
                #[trigger] without_name(h, "host"@)[i].0,
                "host"@,
            ),
{
    lemma_without_name_subset(h, "host"@);
}

/// Under the CORS policy the response has `content-type: application/json`
/// where it had no content type, and keeps every content-type entry it had.
pub proof fn lemma_cors_content_type(h: Seq<(Seq<char>, Seq<char>)>)
    ensures
        !has_name(h, content_type_name()) ==> with_cors(h).contains(
            (content_type_name(), "application/json"@),
        ),
        forall|j: int|
            0 <= j < h.len() && same_ignoring_case(h[j].0, content_type_name())
                ==> #[trigger] with_cors(h).contains(h[j]),
{
    reveal_strlit("content-type");
    reveal_strlit("access-control-allow-origin");
    reveal_strlit("access-control-allow-methods");
    reveal_strlit("access-control-allow-headers");
    let ct = content_type_name();
    let h1 = set_spec(h, "access-control-allow-origin"@, "*"@);
    let h2 = set_spec(h1, "access-control-allow-methods"@, "GET, POST, PUT, DELETE, OPTIONS"@);
    let h3 = set_spec(h2, "access-control-allow-headers"@, "Content-Type, Authorization"@);
    lemma_set_keeps_other_names(h, "access-control-allow-origin"@, "*"@, ct);
    lemma_set_keeps_other_names(
        h1,
        "access-control-allow-methods"@,
        "GET, POST, PUT, DELETE, OPTIONS"@,
        ct,
    );
    lemma_set_keeps_other_names(
        h2,
        "access-control-allow-headers"@,
        "Content-Type, Authorization"@,
        ct,
    );
    if !has_name(h, ct) {
        assert(with_cors(h)[h3.len() as int] == (ct, "application/json"@));
    }
    assert forall|j: int|
        0 <= j < h.len() && same_ignoring_case(h[j].0, ct) implies #[trigger] with_cors(
        h,
    ).contains(h[j]) by {
        assert(h1.contains(h[j]));
        let k1 = choose|k: int| 0 <= k < h1.len() && h1[k] == h[j];
        assert(same_ignoring_case(h1[k1].0, ct));
        assert(h2.contains(h1[k1]));
        let k2 = choose|k: int| 0 <= k < h2.len() && h2[k] == h1[k1];
        assert(same_ignoring_case(h2[k2].0, ct));
        assert(h3.contains(h2[k2]));
        let k3 = choose|k: int| 0 <= k < h3.len() && h3[k] == h2[k2];
        if !has_name(h3, ct) {
            assert(with_cors(h)[k3] == h3[k3]);
        }
    }
}

/// Every entry of `set_spec(h, n, v)` named `m`, a name of another length,
/// comes from `h`.
proof fn lemma_set_entries_from(h: Seq<(Seq<char>, Seq<char>)>, n: Seq<char>, v: Seq<char>, m: Seq<char>)
    requires
        n.len() != m.len(),
    ensures
        forall|i: int|
            0 <= i < set_spec(h, n, v).len() && same_ignoring_case(set_spec(h, n, v)[i].0, m)
                ==> h.contains(#[trigger] set_spec(h, n, v)[i]),
{
    lemma_without_name_subset(h, n);
    let r = set_spec(h, n, v);
    assert forall|i: int| 0 <= i < r.len() && same_ignoring_case(r[i].0, m) implies h.contains(
        #[trigger] r[i],
    ) by {
        if i < r.len() - 1 {
            assert(r[i] == without_name(h, n)[i]);
        }
    }
}

/// An entry that `set_spec` does not name survives it.
proof fn lemma_set_keeps_entry(
    h: Seq<(Seq<char>, Seq<char>)>,
    n: Seq<char>,
    v: Seq<char>,
    e: (Seq<char>, Seq<char>),
)
    requires
        h.contains(e),
        !same_ignoring_case(e.0, n),
    ensures
        set_spec(h, n, v).contains(e),
{
    let j = choose|j: int| 0 <= j < h.len() && h[j] == e;
    lemma_without_name_keeps(h, n, j);
    let k = choose|k: int| 0 <= k < without_name(h, n).len() && without_name(h, n)[k] == e;
    assert(set_spec(h, n, v)[k] == e);
}

/// Under the CORS policy the three `access-control-allow-*` headers have
/// their fixed values. Where no content type was present, exactly one
/// content-type entry results, `application/json`, and it comes last;
/// otherwise every content-type entry of the result was there before, so
/// none is added.
pub proof fn lemma_cors_headers_exact(h: Seq<(Seq<char>, Seq<char>)>)
    ensures
        with_cors(h).contains(("access-control-allow-origin"@, "*"@)),
        with_cors(h).contains(("access-control-allow-methods"@, "GET, POST, PUT, DELETE, OPTIONS"@)),
        with_cors(h).contains(("access-control-allow-headers"@, "Content-Type, Authorization"@)),
        !has_name(h, content_type_name()) ==> forall|i: int|
            0 <= i < with_cors(h).len() && same_ignoring_case(
                #[trigger] with_cors(h)[i].0,
                content_type_name(),
            ) ==> i == with_cors(h).len() - 1 && with_cors(h)[i] == (
                content_type_name(),
                "application/json"@,
            ),
        has_name(h, content_type_name()) ==> forall|i: int|
            0 <= i < with_cors(h).len() && same_ignoring_case(
                #[trigger] with_cors(h)[i].0,
                content_type_name(),
            ) ==> h.contains(with_cors(h)[i]),
{
    reveal_strlit("content-type");
    reveal_strlit("access-control-allow-origin");
    reveal_strlit("access-control-allow-methods");
    reveal_strlit("access-control-allow-headers");
    let ct = content_type_name();
    let n1 = "access-control-allow-origin"@;
    let n2 = "access-control-allow-methods"@;
    let n3 = "access-control-allow-headers"@;
    let v1 = "*"@;
    let v2 = "GET, POST, PUT, DELETE, OPTIONS"@;
    let v3 = "Content-Type, Authorization"@;
    let h1 = set_spec(h, n1, v1);
    let h2 = set_spec(h1, n2, v2);
    let h3 = set_spec(h2, n3, v3);
    let r = with_cors(h);
    // the three CORS entries
    assert(h1[h1.len() - 1] == (n1, v1));
    assert(h2[h2.len() - 1] == (n2, v2));
    assert(h3[h3.len() - 1] == (n3, v3));
    lemma_lower_differs(n2, n3, 21);
    lemma_set_keeps_entry(h1, n2, v2, (n1, v1));
    lemma_set_keeps_entry(h2, n3, v3, (n1, v1));
    lemma_set_keeps_entry(h2, n3, v3, (n2, v2));
    lemma_set_keeps_other_names(h, n1, v1, ct);
    lemma_set_keeps_other_names(h1, n2, v2, ct);
    lemma_set_keeps_other_names(h2, n3, v3, ct);
    lemma_set_entries_from(h, n1, v1, ct);
    lemma_set_entries_from(h1, n2, v2, ct);
    lemma_set_entries_from(h2, n3, v3, ct);
    if has_name(h3, ct) {
        assert(r == h3);
        assert forall|i: int| 0 <= i < r.len() && same_ignoring_case(#[trigger] r[i].0, ct) implies h.contains(
            r[i],
        ) by {
            let k2 = choose|k: int| 0 <= k < h2.len() && h2[k] == r[i];
            assert(same_ignoring_case(h2[k2].0, ct));
            let k1 = choose|k: int| 0 <= k < h1.len() && h1[k] == h2[k2];
            assert(same_ignoring_case(h1[k1].0, ct));
        }
    } else {
        assert(r == h3.push((ct, "application/json"@)));
        assert(h3.contains((n1, v1)));
        let a = choose|k: int| 0 <= k < h3.len() && h3[k] == (n1, v1);
        assert(r[a] == (n1, v1));
        let b = choose|k: int| 0 <= k < h3.len() && h3[k] == (n2, v2);
        assert(r[b] == (n2, v2));
        assert(r[h3.len() - 1] == (n3, v3));
        assert forall|i: int| 0 <= i < r.len() && same_ignoring_case(#[trigger] r[i].0, ct) implies i == r.len() - 1 && r[i] == (ct, "application/json"@) by {
            if i < r.len() - 1 {
                assert(r[i] == h3[i]);
                assert(has_name(h3, ct));
            }
        }
    }
}

/// Two names that differ, ignoring case, at position `k`.
proof fn lemma_lower_differs(a: Seq<char>, b: Seq<char>, k: int)
    requires
        0 <= k < a.len(),
        k < b.len(),
        crate::text::lower_code(a[k]) != crate::text::lower_code(b[k]),
    ensures
        !same_ignoring_case(a, b),
        !same_ignoring_case(b, a),
{
}

/// An extra-header string without a colon changes nothing.
pub proof fn lemma_extra_without_colon_is_ignored(
    h: Seq<(Seq<char>, Seq<char>)>,
    extras: Seq<Seq<char>>,
    bad: Seq<char>,
)
    requires
        !bad.contains(':'),
    ensures
        with_extras(h, extras.push(bad)) == with_extras(h, extras),
{
    assert(extras.push(bad).drop_last() =~= extras);
    assert(!exists|i: int| colon_at(bad, i));
}

/// Names ordered character by character, by code point; a proper prefix
/// comes first. This is the byte order of their UTF-8 encodings.
pub open spec fn name_lt(a: Seq<char>, b: Seq<char>) -> bool
    decreases a.len(),
{
    if a.len() == 0 {
        b.len() > 0
    } else if b.len() == 0 {
        false
    } else if a[0] != b[0] {
        (a[0] as u32) < (b[0] as u32)
    } else {
        name_lt(a.drop_first(), b.drop_first())
    }
}

/// `s` with `e` placed by name: it replaces the entry of the same name, or
/// goes before the first entry whose name is greater.
pub open spec fn insert_by_name(s: Seq<(Seq<char>, Seq<char>)>, e: (Seq<char>, Seq<char>)) -> Seq<
    (Seq<char>, Seq<char>),
>
    decreases s.len(),
{
    if s.len() == 0 {
        seq![e]
    } else if s[0].0 == e.0 {
        seq![e] + s.drop_first()
    } else if name_lt(e.0, s[0].0) {
        seq![e] + s
    } else {
        seq![s[0]] + insert_by_name(s.drop_first(), e)
    }
}

/// The entries of `h` ordered by name, one per name, the last value of each
/// name kept.
pub open spec fn sorted_by_name(h: Seq<(Seq<char>, Seq<char>)>) -> Seq<(Seq<char>, Seq<char>)>
    decreases h.len(),
{
    if h.len() == 0 {
        h
    } else {
        insert_by_name(sorted_by_name(h.drop_last()), h.last())
    }
}

/// Whether `a` comes before `b` in name order.
pub fn name_less(a: &str, b: &str) -> (r: bool)
    ensures
        r == name_lt(a@, b@),
{
    let n = a.unicode_len();
    let m = b.unicode_len();
    let mut i: usize = 0;
    assert(a@.skip(0) =~= a@);
    assert(b@.skip(0) =~= b@);
    while i < n && i < m && a.get_char(i) == b.get_char(i)
        invariant
            n == a@.len(),
            m == b@.len(),
            i <= n,
            i <= m,
            name_lt(a@, b@) == name_lt(a@.skip(i as int), b@.skip(i as int)),
        decreases n - i,
    {
        assert(a@.skip(i as int).drop_first() =~= a@.skip(i as int + 1));
        assert(b@.skip(i as int).drop_first() =~= b@.skip(i as int + 1));
        i = i + 1;
    }
    if i == n {
        i < m
    } else if i == m {
        false
    } else {
        (a.get_char(i) as u32) < (b.get_char(i) as u32)
    }
}

proof fn lemma_insert_by_name_at(s: Seq<(Seq<char>, Seq<char>)>, e: (Seq<char>, Seq<char>), p: int)
    requires
        0 <= p <= s.len(),
        forall|k: int| 0 <= k < p ==> #[trigger] s[k].0 != e.0 && !name_lt(e.0, s[k].0),
    ensures
        insert_by_name(s, e) == s.take(p) + insert_by_name(s.skip(p), e),
    decreases p,
{
    if p > 0 {
        lemma_insert_by_name_at(s.drop_first(), e, p - 1);
        assert(s.drop_first().take(p - 1) =~= s.take(p).drop_first());
        assert(s.drop_first().skip(p - 1) =~= s.skip(p));
        assert(s[0].0 != e.0 && !name_lt(e.0, s[0].0));
        assert(s.take(p) =~= seq![s[0]] + s.take(p).drop_first());
        assert(insert_by_name(s, e) =~= seq![s[0]] + insert_by_name(s.drop_first(), e));
        assert(s.take(p) + insert_by_name(s.skip(p), e) =~= seq![s[0]] + (s.take(p).drop_first()
            + insert_by_name(s.skip(p), e)));
    } else {
        assert(s.skip(0) =~= s);
        assert(s.take(0) + insert_by_name(s, e) =~= insert_by_name(s, e));
    }
}

/// Places an entry by name in a list kept in name order.
fn insert_entry_by_name(out: &mut Vec<(String, String)>, e: (String, String))
    ensures
        pairs_view(final(out)@) == insert_by_name(pairs_view(old(out)@), (e.0@, e.1@)),
{
    let ghost s = pairs_view(out@);
    let ghost ev = (e.0@, e.1@);
    let mut p: usize = 0;
    while p < out.len() && !(out[p].0 == e.0) && !name_less(e.0.as_str(), out[p].0.as_str())
        invariant
            s == pairs_view(out@),
            ev == (e.0@, e.1@),
            p <= out@.len(),
            forall|k: int| 0 <= k < p ==> #[trigger] s[k].0 != ev.0 && !name_lt(ev.0, s[k].0),
        decreases out@.len() - p,
    {
        assert(s[p as int] == (out@[p as int].0@, out@[p as int].1@));
        p = p + 1;
    }
    proof {
        lemma_insert_by_name_at(s, ev, p as int);
    }
    if p < out.len() && out[p].0 == e.0 {
        assert(s[p as int].0 == ev.0);
        assert(s.skip(p as int).drop_first() =~= s.skip(p as int + 1));
        out.remove(p);
        out.insert(p, e);
        assert(pairs_view(out@) =~= s.take(p as int) + (seq![ev] + s.skip(p as int + 1)));
    } else {
        if p < out.len() {
            assert(s[p as int].0 != ev.0 && name_lt(ev.0, s[p as int].0));
        } else {
            assert(s.skip(p as int) =~= Seq::<(Seq<char>, Seq<char>)>::empty());
        }
        out.insert(p, e);
        assert(pairs_view(out@) =~= s.take(p as int) + (seq![ev] + s.skip(p as int)));
    }
}

/// The entries of `h` in name order, one per name, the last value of each
/// name kept.
pub fn sort_by_name(h: &Vec<(String, String)>) -> (r: Vec<(String, String)>)
    ensures
        pairs_view(r@) == sorted_by_name(pairs_view(h@)),
{
    let mut out: Vec<(String, String)> = Vec::new();
    let mut i: usize = 0;
    assert(pairs_view(out@) =~= sorted_by_name(pairs_view(h@.take(0))));
    while i < h.len()
        invariant
            i <= h@.len(),
            pairs_view(out@) == sorted_by_name(pairs_view(h@.take(i as int))),
        decreases h@.len() - i,
    {
        proof {
            assert(pairs_view(h@.take(i as int + 1)).drop_last() =~= pairs_view(h@.take(i as int)));
            assert(pairs_view(h@.take(i as int + 1)).last() == (h@[i as int].0@, h@[i as int].1@));
        }
        let e = (h[i].0.clone(), h[i].1.clone());
        insert_entry_by_name(&mut out, e);
        i = i + 1;
    }
    assert(h@.take(h@.len() as int) =~= h@);
    out
}

/// Names strictly increasing along `s`: one entry per name, in order.
pub open spec fn strictly_sorted(s: Seq<(Seq<char>, Seq<char>)>) -> bool {
    forall|i: int, j: int| 0 <= i < j < s.len() ==> name_lt(#[trigger] s[i].0, #[trigger] s[j].0)
}

proof fn lemma_name_lt_total(a: Seq<char>, b: Seq<char>)
    ensures
        !name_lt(a, a),
        !(name_lt(a, b) && name_lt(b, a)),
        a != b ==> name_lt(a, b) || name_lt(b, a),
    decreases a.len(),
{
    if a.len() > 0 && b.len() > 0 {
        lemma_name_lt_total(a.drop_first(), b.drop_first());
        lemma_name_lt_total(a.drop_first(), a.drop_first());
        if a != b && a[0] == b[0] {
            assert(a =~= seq![a[0]] + a.drop_first());
            assert(b =~= seq![b[0]] + b.drop_first());
        }
        if a[0] != b[0] {
            let x = a[0];
            let y = b[0];
            vstd::utf8::char_u32_cast(x, x as u32);
            vstd::utf8::char_u32_cast(y, y as u32);
        }
    } else if a.len() > 0 {
        assert(!name_lt(a, a)) by {
            lemma_name_lt_total(a.drop_first(), a.drop_first());
        }
    } else if b.len() == 0 {
        assert(a =~= b);
    }
}

proof fn lemma_name_lt_transitive(a: Seq<char>, b: Seq<char>, c: Seq<char>)
    requires
        name_lt(a, b),
        name_lt(b, c),
    ensures
        name_lt(a, c),
    decreases a.len(),
{
    if a.len() > 0 && b.len() > 0 && c.len() > 0 {
        if a[0] == b[0] && b[0] == c[0] {
            lemma_name_lt_transitive(a.drop_first(), b.drop_first(), c.drop_first());
        }
    }
}

/// Placing an entry by name keeps a list in strict name order; every entry
/// of the result is the new one or came from the list.
pub proof fn lemma_insert_by_name_sorted(s: Seq<(Seq<char>, Seq<char>)>, e: (Seq<char>, Seq<char>))
    requires
        strictly_sorted(s),
    ensures
        strictly_sorted(insert_by_name(s, e)),
        forall|k: int|
            0 <= k < insert_by_name(s, e).len() ==> #[trigger] insert_by_name(s, e)[k] == e
                || s.contains(insert_by_name(s, e)[k]),
    decreases s.len(),
{
    let r = insert_by_name(s, e);
    if s.len() == 0 {
    } else if s[0].0 == e.0 {
        assert forall|i: int, j: int| 0 <= i < j < r.len() implies name_lt(
            #[trigger] r[i].0,
            #[trigger] r[j].0,
        ) by {
            assert(r[j] == s[j]);
            if i > 0 {
                assert(r[i] == s[i]);
            } else {
                assert(name_lt(s[0].0, s[j].0));
            }
        }
        assert forall|k: int| 0 <= k < r.len() implies #[trigger] r[k] == e || s.contains(r[k]) by {
            if k > 0 {
                assert(r[k] == s[k]);
            }
        }
    } else if name_lt(e.0, s[0].0) {
        assert forall|i: int, j: int| 0 <= i < j < r.len() implies name_lt(
            #[trigger] r[i].0,
            #[trigger] r[j].0,
        ) by {
            assert(r[j] == s[j - 1]);
            if i > 0 {
                assert(r[i] == s[i - 1]);
            } else if j > 1 {
                assert(name_lt(s[0].0, s[j - 1].0));
                lemma_name_lt_transitive(e.0, s[0].0, s[j - 1].0);
            }
        }
        assert forall|k: int| 0 <= k < r.len() implies #[trigger] r[k] == e || s.contains(r[k]) by {
            if k > 0 {
                assert(r[k] == s[k - 1]);
            }
        }
    } else {
        let rest = s.drop_first();
        let ins = insert_by_name(rest, e);
        assert(strictly_sorted(rest)) by {
            assert forall|i: int, j: int| 0 <= i < j < rest.len() implies name_lt(
                #[trigger] rest[i].0,
                #[trigger] rest[j].0,
            ) by {
                assert(rest[i] == s[i + 1] && rest[j] == s[j + 1]);
            }
        }
        lemma_insert_by_name_sorted(rest, e);
        lemma_name_lt_total(e.0, s[0].0);
        assert(name_lt(s[0].0, e.0));
        assert forall|k: int| 0 <= k < ins.len() implies name_lt(s[0].0, #[trigger] ins[k].0) by {
            if ins[k] != e {
                assert(rest.contains(ins[k]));
                let j = choose|j: int| 0 <= j < rest.len() && rest[j] == ins[k];
                assert(s[j + 1] == rest[j]);
                assert(name_lt(s[0].0, s[j + 1].0));
            }
        }
        assert forall|i: int, j: int| 0 <= i < j < r.len() implies name_lt(
            #[trigger] r[i].0,
            #[trigger] r[j].0,
        ) by {
            assert(r[j] == ins[j - 1]);
            if i > 0 {
                assert(r[i] == ins[i - 1]);
            }
        }
        assert forall|k: int| 0 <= k < r.len() implies #[trigger] r[k] == e || s.contains(r[k]) by {
            if k > 0 {
                assert(r[k] == ins[k - 1]);
                if ins[k - 1] != e {
                    assert(rest.contains(ins[k - 1]));
                    let j = choose|j: int| 0 <= j < rest.len() && rest[j] == ins[k - 1];
                    assert(s[j + 1] == rest[j]);
                }
            } else {
                assert(r[0] == s[0]);
            }
        }
    }
}

/// The header list in name order holds one entry per name, names strictly
/// increasing.
pub proof fn lemma_sorted_by_name_is_sorted(h: Seq<(Seq<char>, Seq<char>)>)
    ensures
        strictly_sorted(sorted_by_name(h)),
    decreases h.len(),
{
    if h.len() > 0 {
        lemma_sorted_by_name_is_sorted(h.drop_last());
        lemma_insert_by_name_sorted(sorted_by_name(h.drop_last()), h.last());
    }
}

/// How many entries of `h` are named `n`.
pub open spec fn count_named(h: Seq<(Seq<char>, Seq<char>)>, n: Seq<char>) -> nat
    decreases h.len(),
{
    if h.len() == 0 {
        0
    } else {
        count_named(h.drop_last(), n) + if same_ignoring_case(h.last().0, n) {
            1nat
        } else {
            0nat
        }
    }
}

proof fn lemma_count_without_other_name(h: Seq<(Seq<char>, Seq<char>)>, m: Seq<char>, n: Seq<char>)
    requires
        m.len() != n.len(),
    ensures
        count_named(without_name(h, m), n) == count_named(h, n),
    decreases h.len(),
{
    if h.len() > 0 {
        lemma_count_without_other_name(h.drop_last(), m, n);
        let rest = without_name(h.drop_last(), m);
        if !same_ignoring_case(h.last().0, m) {
            assert(rest.push(h.last()).drop_last() =~= rest);
        }
    }
}

proof fn lemma_count_set_other_name(
    h: Seq<(Seq<char>, Seq<char>)>,
    m: Seq<char>,
    v: Seq<char>,
    n: Seq<char>,
)
    requires
        m.len() != n.len(),
    ensures
        count_named(set_spec(h, m, v), n) == count_named(h, n),
{
    lemma_count_without_other_name(h, m, n);
    assert(set_spec(h, m, v).drop_last() =~= without_name(h, m));
}

proof fn lemma_count_has_name(h: Seq<(Seq<char>, Seq<char>)>, n: Seq<char>)
    requires
        count_named(h, n) > 0,
    ensures
        has_name(h, n),
    decreases h.len(),
{
    if !same_ignoring_case(h.last().0, n) {
        lemma_count_has_name(h.drop_last(), n);
        let i = choose|i: int| 0 <= i < h.drop_last().len() && same_ignoring_case(
            #[trigger] h.drop_last()[i].0,
            n,
        );
        assert(h[i] == h.drop_last()[i]);
    } else {
        assert(h[h.len() - 1] == h.last());
    }
}

/// Under the header policy with CORS, a content type supplied exactly once
/// (by the response's own headers or by an extra header) stays the only
/// content-type entry, and it is the one supplied: no `application/json` is
/// added beside it.
pub proof fn lemma_supplied_content_type_kept_alone(
    h: Seq<(Seq<char>, Seq<char>)>,
    extras: Seq<Seq<char>>,
)
    requires
        count_named(with_extras(h, extras), content_type_name()) == 1,
    ensures
        count_named(transformed(h, extras, true), content_type_name()) == 1,
        forall|i: int|
            0 <= i < transformed(h, extras, true).len() && same_ignoring_case(
                #[trigger] transformed(h, extras, true)[i].0,
                content_type_name(),
            ) ==> with_extras(h, extras).contains(transformed(h, extras, true)[i]),
{
    reveal_strlit("content-type");
    reveal_strlit("access-control-allow-origin");
    reveal_strlit("access-control-allow-methods");
    reveal_strlit("access-control-allow-headers");
    let t = with_extras(h, extras);
    let ct = content_type_name();
    let h1 = set_spec(t, "access-control-allow-origin"@, "*"@);
    let h2 = set_spec(h1, "access-control-allow-methods"@, "GET, POST, PUT, DELETE, OPTIONS"@);
    let h3 = set_spec(h2, "access-control-allow-headers"@, "Content-Type, Authorization"@);
    lemma_count_has_name(t, ct);
    lemma_cors_headers_exact(t);
    lemma_count_set_other_name(t, "access-control-allow-origin"@, "*"@, ct);
    lemma_count_set_other_name(h1, "access-control-allow-methods"@, "GET, POST, PUT, DELETE, OPTIONS"@, ct);
    lemma_count_set_other_name(h2, "access-control-allow-headers"@, "Content-Type, Authorization"@, ct);
    lemma_set_keeps_other_names(t, "access-control-allow-origin"@, "*"@, ct);
    lemma_set_keeps_other_names(h1, "access-control-allow-methods"@, "GET, POST, PUT, DELETE, OPTIONS"@, ct);
    lemma_set_keeps_other_names(h2, "access-control-allow-headers"@, "Content-Type, Authorization"@, ct);
    assert(with_cors(t) == h3);
}

proof fn lemma_count_without_same_name(h: Seq<(Seq<char>, Seq<char>)>, n: Seq<char>, m: Seq<char>)
    requires
        same_ignoring_case(n, m),
    ensures
        count_named(without_name(h, n), m) == 0,
    decreases h.len(),
{
    if h.len() > 0 {
        lemma_count_without_same_name(h.drop_last(), n, m);
        let rest = without_name(h.drop_last(), n);
        if !same_ignoring_case(h.last().0, n) {
            assert(rest.push(h.last()).drop_last() =~= rest);
            if same_ignoring_case(h.last().0, m) {
                assert forall|k: int| 0 <= k < n.len() implies #[trigger] crate::text::lower_code(
                    h.last().0[k],
                ) == crate::text::lower_code(n[k]) by {
                    assert(crate::text::lower_code(h.last().0[k]) == crate::text::lower_code(m[k]));
                    assert(crate::text::lower_code(n[k]) == crate::text::lower_code(m[k]));
                }
            }
        }
    }
}

/// Setting a header leaves exactly one entry of that name, whatever its
/// case: an extra `Content-Type` header is the only content type before
/// CORS is applied.
pub proof fn lemma_set_leaves_one(h: Seq<(Seq<char>, Seq<char>)>, n: Seq<char>, v: Seq<char>, m: Seq<char>)
    requires
        same_ignoring_case(n, m),
    ensures
        count_named(set_spec(h, n, v), m) == 1,
{
    lemma_count_without_same_name(h, n, m);
    assert(set_spec(h, n, v).drop_last() =~= without_name(h, n));
}

} // verus!
