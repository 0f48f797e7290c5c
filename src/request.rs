//! Parsing of a request buffer: method, path, query and protocol version, taken
//! from the request line. What follows the request line is not read.

use vstd::prelude::*;
use vstd::utf8::*;
use crate::method::{Method, method_named};
use crate::query_string::{QueryString, expected_lookup, first_index_of, query_pairs};
use crate::text::{
    lemma_boundary_after_ascii,
    lemma_boundary_at_ascii,
    same_text,
    text_between,
    utf8_text,
};

verus! {

broadcast use vstd::utf8::group_utf8_lib;

/// The byte that ends a line.
pub const LF: u8 = 0x0a;

/// The byte that starts the query of a target.
pub const QUESTION: u8 = 0x3f;

/// Why a buffer does not hold a request.
#[derive(Clone, Copy, Debug, PartialEq, Eq, Structural)]
pub enum ParseError {
    InvalidEncoding,
    MalformedRequestLine,
    InvalidMethod,
    InvalidProtocol,
}

/// A short description of each error.
pub open spec fn message_of(e: ParseError) -> Seq<char> {
    match e {
        ParseError::InvalidEncoding => "Invalid Encoding"@,
        ParseError::MalformedRequestLine => "Malformed Request Line"@,
        ParseError::InvalidMethod => "Invalid Method"@,
        ParseError::InvalidProtocol => "Invalid Protocol"@,
    }
}

impl ParseError {
    /// A short description, for logs.
    pub fn message(&self) -> (r: &'static str)
        ensures
            r@ == message_of(*self),
    {
        match self {
            ParseError::InvalidEncoding => "Invalid Encoding",
            ParseError::MalformedRequestLine => "Malformed Request Line",
            ParseError::InvalidMethod => "Invalid Method",
            ParseError::InvalidProtocol => "Invalid Protocol",
        }
    }
}

/// The bytes that separate the tokens of the request line.
pub open spec fn is_space(c: u8) -> bool {
    c == 0x20 || c == 0x09 || c == 0x0c || c == 0x0d
}

fn is_space_byte(c: u8) -> (r: bool)
    ensures
        r == is_space(c),
{
    c == 0x20 || c == 0x09 || c == 0x0c || c == 0x0d
}

/// Spans of the maximal runs of non-space bytes in `b[0..n]`, in order.
pub open spec fn token_spans(b: Seq<u8>, n: int) -> Seq<(int, int)>
    decreases n,
{
    if n <= 0 {
        Seq::empty()
    } else {
        let p = token_spans(b, n - 1);
        if is_space(b[n - 1]) {
            p
        } else if n >= 2 && !is_space(b[n - 2]) {
            p.update(p.len() - 1, (p.last().0, n))
        } else {
            p.push((n - 1, n))
        }
    }
}

/// Each token is a non-empty run between spaces (or the ends of `b[0..n]`), and
/// the tokens come in order.
pub proof fn lemma_token_spans_shape(b: Seq<u8>, n: int)
    requires
        0 <= n <= b.len(),
    ensures
        ({
            let t = token_spans(b, n);
            &&& forall|k: int|
                #![trigger t[k]]
                0 <= k < t.len() ==> {
                    &&& 0 <= t[k].0 < t[k].1 <= n
                    &&& (t[k].0 == 0 || is_space(b[t[k].0 - 1]))
                    &&& (t[k].1 == n || is_space(b[t[k].1]))
                    &&& !is_space(b[t[k].1 - 1])
                }
            &&& forall|k: int| 0 <= k < t.len() - 1 ==> #[trigger] t[k].1 < t[k + 1].0
            &&& (n > 0 && !is_space(b[n - 1])) ==> t.len() > 0 && t.last().1 == n
        }),
    decreases n,
{
    if n > 0 {
        lemma_token_spans_shape(b, n - 1);
        let p = token_spans(b, n - 1);
        let t = token_spans(b, n);
        if is_space(b[n - 1]) {
        } else if n >= 2 && !is_space(b[n - 2]) {
            assert forall|k: int| 0 <= k < t.len() - 1 implies #[trigger] t[k].1 < t[k + 1].0 by {
                assert(p[k].1 < p[k + 1].0);
            }
            assert forall|k: int| 0 <= k < t.len() implies t[k].1 == n || is_space(b[t[k].1]) by {
                if k < t.len() - 1 {
                    assert(p[k].1 < p[k + 1].0);
                    assert(p[k + 1].0 < p[k + 1].1);
                }
            }
        } else {
            if p.len() > 0 {
                assert(p.last().1 < n - 1) by {
                    let l = p.len() - 1;
                    assert(p[l].1 <= n - 1);
                    assert(!is_space(b[p[l].1 - 1]));
                }
            }
            assert forall|k: int| 0 <= k < t.len() - 1 implies #[trigger] t[k].1 < t[k + 1].0 by {
                if k < p.len() - 1 {
                    assert(p[k].1 < p[k + 1].0);
                }
            }
        }
    }
}

/// The spans as integers.
pub open spec fn spans_view(s: Seq<(usize, usize)>) -> Seq<(int, int)> {
    s.map_values(|p: (usize, usize)| (p.0 as int, p.1 as int))
}

fn find_token_spans(b: &[u8], n: usize) -> (r: Vec<(usize, usize)>)
    requires
        n <= b@.len(),
    ensures
        spans_view(r@) == token_spans(b@, n as int),
{
    let mut spans: Vec<(usize, usize)> = Vec::new();
    let mut i: usize = 0;
    while i < n
        invariant
            0 <= i <= n <= b@.len(),
            spans_view(spans@) == token_spans(b@, i as int),
        decreases n - i,
    {
        proof {
            lemma_token_spans_shape(b@, i as int);
        }
        let ghost before = spans@;
        if is_space_byte(b[i]) {
        } else if i > 0 && !is_space_byte(b[i - 1]) {
            let last = spans.pop().unwrap();
            spans.push((last.0, i + 1));
            proof {
                assert(spans_view(spans@) =~= spans_view(before).update(
                    before.len() - 1,
                    (spans_view(before).last().0, i + 1),
                ));
            }
        } else {
            spans.push((i, i + 1));
            proof {
                assert(spans_view(spans@) =~= spans_view(before).push((i as int, i + 1)));
            }
        }
        i = i + 1;
    }
    spans
}

/// Where the request line ends: at the first line feed, or at the end of the buffer.
pub open spec fn line_end(b: Seq<u8>) -> int {
    first_index_of(b, LF, 0, b.len() as int)
}

/// The token spans of the request line.
pub open spec fn request_tokens(b: Seq<u8>) -> Seq<(int, int)> {
    token_spans(b, line_end(b))
}

/// The text of a span.
pub open spec fn span_text(b: Seq<u8>, s: (int, int)) -> Seq<char> {
    decode_utf8(b.subrange(s.0, s.1))
}

/// The only protocol accepted.
pub open spec fn http11() -> Seq<char> {
    seq!['H', 'T', 'T', 'P', '/', '1', '.', '1']
}

/// The error that parsing `b` gives, checked in this order, or `None` when `b`
/// holds a request.
pub open spec fn parse_error_of(b: Seq<u8>) -> Option<ParseError> {
    if !valid_utf8(b) {
        Some(ParseError::InvalidEncoding)
    } else if request_tokens(b).len() != 3 {
        Some(ParseError::MalformedRequestLine)
    } else if method_named(span_text(b, request_tokens(b)[0])) is None {
        Some(ParseError::InvalidMethod)
    } else if span_text(b, request_tokens(b)[2]) != http11() {
        Some(ParseError::InvalidProtocol)
    } else {
        None
    }
}

/// Where the query of the target span `s` starts (its `?`), or the span's end.
pub open spec fn query_mark(b: Seq<u8>, s: (int, int)) -> int {
    first_index_of(b, QUESTION, s.0, s.1)
}

/// A request line parsed: the method, the path, the query if the target has one,
/// and the protocol version.
#[derive(Debug)]
pub struct Request {
    method: Method,
    path: String,
    query: Option<QueryString>,
    version: String,
}

impl Request {
    /// The query of a request is always well formed.
    #[verifier::type_invariant]
    spec fn query_wf(&self) -> bool {
        self.query matches Some(q) ==> q.wf()
    }

    /// The method, in specifications.
    pub closed spec fn spec_method(&self) -> Method {
        self.method
    }

    /// The path, in specifications.
    pub closed spec fn spec_path(&self) -> Seq<char> {
        self.path@
    }

    /// The query parameters, in specifications.
    pub closed spec fn spec_query(&self) -> Option<QueryString> {
        self.query
    }

    /// The protocol version, in specifications.
    pub closed spec fn spec_version(&self) -> Seq<char> {
        self.version@
    }

    /// Whether this request is what the buffer `b` holds.
    pub open spec fn parsed_from(&self, b: Seq<u8>) -> bool {
        let t = request_tokens(b);
        let m = query_mark(b, t[1]);
        &&& Some(self.spec_method()) == method_named(span_text(b, t[0]))
        &&& self.spec_path() == span_text(b, (t[1].0, m))
        &&& (self.spec_query() is Some <==> m < t[1].1)
        &&& (self.spec_query() matches Some(qs) ==> {
            &&& qs.wf()
            &&& forall|k: Seq<char>|
                qs.lookup(k) == expected_lookup(query_pairs(b.subrange(m + 1, t[1].1)), k)
        })
        &&& self.spec_version() == seq!['1', '.', '1']
    }

    /// Parses the request line of `buf`: UTF-8 text whose first line holds exactly
    /// three tokens, a method, a target (a path, then `?` and a query if there is
    /// one) and `HTTP/1.1`. The first line runs up to the first line feed, or to
    /// the end of the buffer when there is none. Tokens are separated by runs of
    /// space, tab, form feed and carriage return, and by nothing else: a vertical
    /// tab or a non-ASCII space is part of a token.
    pub fn parse(buf: &[u8]) -> (r: Result<Request, ParseError>)
        ensures
            r is Err <==> parse_error_of(buf@) is Some,
            r matches Err(e) ==> parse_error_of(buf@) == Some(e),
            r matches Ok(req) ==> req.parsed_from(buf@),
    {
        let text = match utf8_text(buf) {
            Some(t) => t,
            None => {
                return Err(ParseError::InvalidEncoding);
            },
        };
        let bytes = text.as_bytes();
        let ghost b = bytes@;
        let mut e: usize = 0;
        while e < bytes.len() && bytes[e] != LF
            invariant
                bytes@ == b,
                b == buf@,
                valid_utf8(b),
                0 <= e <= b.len(),
                first_index_of(b, LF, 0, b.len() as int) == first_index_of(b, LF, e as int, b.len() as int),
            decreases b.len() - e,
        {
            e = e + 1;
        }
        let spans = find_token_spans(bytes, e);
        if spans.len() != 3 {
            return Err(ParseError::MalformedRequestLine);
        }
        proof {
            lemma_token_spans_shape(b, e as int);
            let t = token_spans(b, e as int);
            assert forall|k: int| 0 <= k < 3 implies
                is_char_boundary(b, (#[trigger] t[k]).0) && is_char_boundary(b, t[k].1) by {
                if t[k].0 > 0 {
                    lemma_boundary_after_ascii(b, t[k].0 - 1);
                }
                if t[k].1 < b.len() {
                    lemma_boundary_at_ascii(b, t[k].1);
                }
            }
            assert(spans_view(spans@)[0] == t[0]);
            assert(spans_view(spans@)[1] == t[1]);
            assert(spans_view(spans@)[2] == t[2]);
        }
        let (m0, m1) = spans[0];
        let method = match Method::from_name(text_between(text, m0, m1).as_str()) {
            Some(m) => m,
            None => {
                return Err(ParseError::InvalidMethod);
            },
        };
        let (p0, p1) = spans[2];
        proof {
            reveal_strlit("HTTP/1.1");
            assert("HTTP/1.1"@ =~= http11());
        }
        if !same_text(text_between(text, p0, p1).as_str(), "HTTP/1.1") {
            return Err(ParseError::InvalidProtocol);
        }
        let (t0, t1) = spans[1];
        let mut m: usize = t0;
        while m < t1 && bytes[m] != QUESTION
            invariant
                bytes@ == b,
                t0 <= m <= t1 <= b.len(),
                first_index_of(b, QUESTION, t0 as int, t1 as int) == first_index_of(b, QUESTION, m as int, t1 as int),
            decreases t1 - m,
        {
            m = m + 1;
        }
        proof {
            if m < t1 {
                lemma_boundary_at_ascii(b, m as int);
                lemma_boundary_after_ascii(b, m as int);
            }
        }
        let path = text_between(text, t0, m);
        let query = if m < t1 {
            let q = text_between(text, m + 1, t1);
            Some(QueryString::parse(q.as_str()))
        } else {
            None
        };
        proof {
            reveal_strlit("1.1");
            assert("1.1"@ =~= seq!['1', '.', '1']);
        }
        Ok(Request { method, path, query, version: "1.1".to_owned() })
    }

    /// The method.
    pub fn method(&self) -> (r: Method)
        ensures
            r == self.spec_method(),
    {
        self.method
    }

    /// The path: the target up to its `?`.
    pub fn path(&self) -> (r: &str)
        ensures
            r@ == self.spec_path(),
    {
        self.path.as_str()
    }

    /// The query parameters, if the target has a `?`.
    pub fn query(&self) -> (r: Option<&QueryString>)
        ensures
            r is None <==> self.spec_query() is None,
            r matches Some(q) ==> self.spec_query() == Some(*q),
            r matches Some(q) ==> q.wf(),
    {
        proof {
            use_type_invariant(self);
        }
        self.query.as_ref()
    }

    /// The protocol version.
    pub fn version(&self) -> (r: &str)
        ensures
            r@ == self.spec_version(),
    {
        self.version.as_str()
    }
}

/// A request line with fewer than three tokens is rejected as malformed, whatever
/// else the buffer holds.
pub proof fn lemma_few_tokens_malformed(b: Seq<u8>)
    requires
        valid_utf8(b),
        request_tokens(b).len() < 3,
    ensures
        parse_error_of(b) == Some(ParseError::MalformedRequestLine),
{
}

} // verus!
