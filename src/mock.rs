//! Mock rules, the registry that holds them in order, and the policy that
//! turns a rule's `body` field into the text of a response.

use vstd::prelude::*;
use crate::text::{eq_ignore_ascii_case, same_ignoring_case};

verus! {

/// One statically configured answer: a request with this method and path
/// (both compared ignoring ASCII case) is answered with `status`, `headers`
/// and the body that `body` resolves to.
pub struct MockRule {
    pub method: String,
    pub path: String,
    pub status: u16,
    pub body: String,
    pub headers: Vec<(String, String)>,
}

/// The status of a rule that names none.
pub fn default_status() -> (r: u16)
    ensures
        r == 200,
{
    200
}

/// Whether `rule` answers a request with this method and path.
pub open spec fn rule_matches(rule: MockRule, method: Seq<char>, path: Seq<char>) -> bool {
    same_ignoring_case(rule.method@, method) && same_ignoring_case(rule.path@, path)
}

/// `r` is the position of the first rule of `rules` that answers the
/// request, or `None` where no rule does.
pub open spec fn is_first_match(
    rules: Seq<MockRule>,
    method: Seq<char>,
    path: Seq<char>,
    r: Option<usize>,
) -> bool {
    match r {
        Some(i) => {
            &&& i < rules.len()
            &&& rule_matches(rules[i as int], method, path)
            &&& forall|j: int| 0 <= j < i ==> !rule_matches(#[trigger] rules[j], method, path)
        },
        None => forall|j: int| 0 <= j < rules.len() ==> !rule_matches(#[trigger] rules[j], method, path),
    }
}

/// The ordered rules loaded at startup. Earlier rules shadow later ones
/// with the same method and path.
pub struct MockRegistry {
    pub rules: Vec<MockRule>,
}

impl MockRegistry {
    pub open spec fn view(&self) -> Seq<MockRule> {
        self.rules@
    }

    pub fn new(rules: Vec<MockRule>) -> (r: MockRegistry)
        ensures
            r@ == rules@,
    {
        MockRegistry { rules }
    }

    /// The position of the first rule that answers `method` and `path`
    /// (the query string takes no part in matching).
    pub fn find(&self, method: &str, path: &str) -> (r: Option<usize>)
        ensures
            is_first_match(self@, method@, path@, r),
    {
        let mut i: usize = 0;
        while i < self.rules.len()
            invariant
                i <= self.rules@.len(),
                forall|j: int| 0 <= j < i ==> !rule_matches(#[trigger] self.rules@[j], method@, path@),
            decreases self.rules@.len() - i,
        {
            let rule = &self.rules[i];
            if eq_ignore_ascii_case(rule.method.as_str(), method) && eq_ignore_ascii_case(
                rule.path.as_str(),
                path,
            ) {
                return Some(i);
            }
            i = i + 1;
        }
        None
    }
}

/// `s` names a file with extension `ext`: it ends in `.` and `ext`, and the
/// file name (what follows the last `/`) has something before that dot.
pub open spec fn has_extension(s: Seq<char>, ext: Seq<char>) -> bool {
    let k = s.len() - ext.len();
    &&& s.len() >= ext.len() + 2
    &&& s.subrange(k, s.len() as int) == ext
    &&& s[k - 1] == '.'
    &&& s[k - 2] != '/'
}

/// A rule body that is read from a file rather than used literally.
pub open spec fn is_file_body_spec(s: Seq<char>) -> bool {
    has_extension(s, seq!['j', 's', 'o', 'n']) || has_extension(s, seq!['t', 'x', 't'])
        || has_extension(s, seq!['h', 't', 'm', 'l'])
}

/// The text a rule body stands for, given what reading it as a file gave.
pub open spec fn resolved_body(body: Seq<char>, contents: Option<Seq<char>>) -> Seq<char> {
    match contents {
        Some(c) if is_file_body_spec(body) => c,
        _ => body,
    }
}

fn ends_with_extension(s: &str, ext: &str) -> (r: bool)
    ensures
        r == has_extension(s@, ext@),
{
    let n = s.unicode_len();
    let m = ext.unicode_len();
    if n < m || n - m < 2 {
        return false;
    }
    let k = n - m;
    let mut i: usize = 0;
    while i < m
        invariant
            n == s@.len(),
            m == ext@.len(),
            k == n - m,
            k >= 2,
            i <= m,
            forall|j: int| 0 <= j < i ==> s@[k + j] == #[trigger] ext@[j],
        decreases m - i,
    {
        if s.get_char(k + i) != ext.get_char(i) {
            assert(s@.subrange(k as int, n as int)[i as int] != ext@[i as int]);
            return false;
        }
        i = i + 1;
    }
    assert(s@.subrange(k as int, n as int) =~= ext@);
    s.get_char(k - 1) == '.' && s.get_char(k - 2) != '/'
}

/// Whether a rule body names a `.json`, `.txt` or `.html` file whose
/// contents make the response body.
pub fn is_file_body(body: &str) -> (r: bool)
    ensures
        r == is_file_body_spec(body@),
{
    proof {
        reveal_strlit("json");
        reveal_strlit("txt");
        reveal_strlit("html");
    }
    assert("json"@ =~= seq!['j', 's', 'o', 'n']);
    assert("txt"@ =~= seq!['t', 'x', 't']);
    assert("html"@ =~= seq!['h', 't', 'm', 'l']);
    ends_with_extension(body, "json") || ends_with_extension(body, "txt") || ends_with_extension(
        body,
        "html",
    )
}

/// The response text for a rule body: the file's contents where the body
/// names a file and reading it succeeded, else the body itself.
pub fn resolve_body(body: &str, contents: Option<String>) -> (r: String)
    ensures
        r@ == resolved_body(
            body@,
            match contents {
                Some(c) => Some(c@),
                None => None,
            },
        ),
{
    if is_file_body(body) {
        match contents {
            Some(c) => return c,
            None => {},
        }
    }
    body.to_string()
}

} // verus!
