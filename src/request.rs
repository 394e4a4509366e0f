//! The shapes that the transport hands over and takes back: an inbound
//! request and an outbound response.

use vstd::prelude::*;

verus! {

/// A request as the transport captured it.
pub struct InboundRequest {
    pub method: String,
    pub path: String,
    /// The raw query string, empty where the request had none.
    pub query: String,
    pub headers: Vec<(String, String)>,
    pub body: Vec<u8>,
}

/// The response handed back to the transport.
pub struct ProxyResponse {
    pub status: u16,
    pub headers: Vec<(String, String)>,
    pub body: Vec<u8>,
}

/// The path, followed by `?` and the query where the query is not empty.
pub open spec fn path_with_query_spec(path: Seq<char>, query: Seq<char>) -> Seq<char> {
    if query.len() == 0 {
        path
    } else {
        path + seq!['?'] + query
    }
}

/// The request target: the path, and `?query` where there is a query.
pub fn path_with_query(path: &str, query: &str) -> (r: String)
    ensures
        r@ == path_with_query_spec(path@, query@),
{
    let mut r = path.to_string();
    if query.unicode_len() > 0 {
        proof {
            reveal_strlit("?");
        }
        r.append("?");
        r.append(query);
    }
    r
}

} // verus!
