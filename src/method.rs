//! The request methods that the parser accepts.

use vstd::prelude::*;
use crate::text::same_text;

verus! {

/// A request method.
#[derive(Clone, Copy, Debug, PartialEq, Eq, Structural)]
pub enum Method {
    GET,
    DELETE,
    POST,
    PUT,
    HEAD,
    CONNECT,
    OPTIONS,
    TRACE,
    PATCH,
}

/// The method whose name is `t`, if any; names are upper case and exact.
pub open spec fn method_named(t: Seq<char>) -> Option<Method> {
    if t == seq!['G', 'E', 'T'] {
        Some(Method::GET)
    } else if t == seq!['D', 'E', 'L', 'E', 'T', 'E'] {
        Some(Method::DELETE)
    } else if t == seq!['P', 'O', 'S', 'T'] {
        Some(Method::POST)
    } else if t == seq!['P', 'U', 'T'] {
        Some(Method::PUT)
    } else if t == seq!['H', 'E', 'A', 'D'] {
        Some(Method::HEAD)
    } else if t == seq!['C', 'O', 'N', 'N', 'E', 'C', 'T'] {
        Some(Method::CONNECT)
    } else if t == seq!['O', 'P', 'T', 'I', 'O', 'N', 'S'] {
        Some(Method::OPTIONS)
    } else if t == seq!['T', 'R', 'A', 'C', 'E'] {
        Some(Method::TRACE)
    } else if t == seq!['P', 'A', 'T', 'C', 'H'] {
        Some(Method::PATCH)
    } else {
        None
    }
}

impl Method {
    /// The method named `s`, or `None` when no method has that name.
    pub fn from_name(s: &str) -> (r: Option<Method>)
        ensures
            r == method_named(s@),
    {
        proof {
            reveal_strlit("GET");
            assert("GET"@ =~= seq!['G', 'E', 'T']);
            reveal_strlit("DELETE");
            assert("DELETE"@ =~= seq!['D', 'E', 'L', 'E', 'T', 'E']);
            reveal_strlit("POST");
            assert("POST"@ =~= seq!['P', 'O', 'S', 'T']);
            reveal_strlit("PUT");
            assert("PUT"@ =~= seq!['P', 'U', 'T']);
            reveal_strlit("HEAD");
            assert("HEAD"@ =~= seq!['H', 'E', 'A', 'D']);
            reveal_strlit("CONNECT");
            assert("CONNECT"@ =~= seq!['C', 'O', 'N', 'N', 'E', 'C', 'T']);
            reveal_strlit("OPTIONS");
            assert("OPTIONS"@ =~= seq!['O', 'P', 'T', 'I', 'O', 'N', 'S']);
            reveal_strlit("TRACE");
            assert("TRACE"@ =~= seq!['T', 'R', 'A', 'C', 'E']);
            reveal_strlit("PATCH");
            assert("PATCH"@ =~= seq!['P', 'A', 'T', 'C', 'H']);
        }
        if same_text(s, "GET") {
            Some(Method::GET)
        } else if same_text(s, "DELETE") {
            Some(Method::DELETE)
        } else if same_text(s, "POST") {
            Some(Method::POST)
        } else if same_text(s, "PUT") {
            Some(Method::PUT)
        } else if same_text(s, "HEAD") {
            Some(Method::HEAD)
        } else if same_text(s, "CONNECT") {
            Some(Method::CONNECT)
        } else if same_text(s, "OPTIONS") {
            Some(Method::OPTIONS)
        } else if same_text(s, "TRACE") {
            Some(Method::TRACE)
        } else if same_text(s, "PATCH") {
            Some(Method::PATCH)
        } else {
            None
        }
    }
}

} // verus!
