//! Responses and their wire form: `HTTP/1.1 <code> <reason>\r\n\n<body>`.

use vstd::prelude::*;
use vstd::string::StringExecFns;
use vstd::utf8::*;
use crate::status_code::{StatusCode, code_text_of, reason_of};

verus! {

/// Text that starts the status line.
pub open spec fn status_line_start() -> Seq<char> {
    seq!['H', 'T', 'T', 'P', '/', '1', '.', '1', ' ']
}

/// Text that ends the status line and comes before the body.
pub open spec fn status_line_end() -> Seq<char> {
    seq!['\r', '\n', '\n']
}

/// The wire text of a response with status `s` and body `body`.
pub open spec fn wire_text(s: StatusCode, body: Seq<char>) -> Seq<char> {
    status_line_start() + code_text_of(s) + seq![' '] + reason_of(s) + status_line_end() + body
}

/// The body as text: empty when there is none.
pub open spec fn body_text(body: Option<Seq<char>>) -> Seq<char> {
    match body {
        Some(b) => b,
        None => Seq::empty(),
    }
}

/// A response: a status and an optional body.
#[derive(Debug)]
pub struct Response {
    status_code: StatusCode,
    body: Option<String>,
}

impl Response {
    /// The status, in specifications.
    pub closed spec fn spec_status(&self) -> StatusCode {
        self.status_code
    }

    /// The body's text, in specifications.
    pub closed spec fn spec_body(&self) -> Option<Seq<char>> {
        match self.body {
            Some(b) => Some(b@),
            None => None,
        }
    }

    /// The wire text of this response.
    pub open spec fn wire(&self) -> Seq<char> {
        wire_text(self.spec_status(), body_text(self.spec_body()))
    }

    /// A response with the given status and body.
    pub fn new(status_code: StatusCode, body: Option<String>) -> (r: Response)
        ensures
            r.spec_status() == status_code,
            r.spec_body() == (match body {
                Some(b) => Some(b@),
                None => None::<Seq<char>>,
            }),
    {
        Response { status_code, body }
    }

    /// The status.
    pub fn status_code(&self) -> (r: StatusCode)
        ensures
            r == self.spec_status(),
    {
        self.status_code
    }

    /// The body, if any.
    pub fn body(&self) -> (r: Option<&str>)
        ensures
            r is None <==> self.spec_body() is None,
            r matches Some(b) ==> self.spec_body() == Some(b@),
    {
        match &self.body {
            Some(b) => Some(b.as_str()),
            None => None,
        }
    }

    /// The wire text: the status line, a blank line, then the body (empty when
    /// there is none). No header is written.
    pub fn to_text(&self) -> (r: String)
        ensures
            r@ == self.wire(),
    {
        proof {
            reveal_strlit("HTTP/1.1 ");
            reveal_strlit(" ");
            reveal_strlit("\r\n\n");
            assert("HTTP/1.1 "@ =~= status_line_start());
            assert(" "@ =~= seq![' ']);
            assert("\r\n\n"@ =~= status_line_end());
        }
        let mut out = String::new();
        out.append("HTTP/1.1 ");
        out.append(self.status_code.code_text());
        out.append(" ");
        out.append(self.status_code.reason_phrase());
        out.append("\r\n\n");
        match &self.body {
            Some(b) => out.append(b.as_str()),
            None => {},
        }
        proof {
            assert(out@ =~= self.wire());
        }
        out
    }

    /// The wire bytes: the UTF-8 encoding of the wire text.
    pub fn to_bytes(&self) -> (r: Vec<u8>)
        ensures
            r@ == encode_utf8(self.wire()),
    {
        let mut out: Vec<u8> = Vec::new();
        self.send(&mut out);
        proof {
            assert(out@ =~= encode_utf8(self.wire()));
        }
        out
    }

    /// Appends the wire bytes to `out`, the buffer that is then written to the
    /// connection.
    pub fn send(&self, out: &mut Vec<u8>)
        ensures
            final(out)@ == old(out)@ + encode_utf8(self.wire()),
    {
        let text = self.to_text();
        let bytes = text.as_str().as_bytes();
        let ghost start = out@;
        let mut i: usize = 0;
        while i < bytes.len()
            invariant
                0 <= i <= bytes@.len(),
                bytes@ == encode_utf8(self.wire()),
                out@ == start + bytes@.subrange(0, i as int),
            decreases bytes@.len() - i,
        {
            out.push(bytes[i]);
            proof {
                assert(out@ =~= start + bytes@.subrange(0, i + 1));
            }
            i = i + 1;
        }
        proof {
            assert(bytes@.subrange(0, bytes@.len() as int) =~= bytes@);
        }
    }
}

/// Serializing equal responses gives the same bytes: the wire form depends only
/// on the status and the body.
pub proof fn lemma_wire_depends_on_value(a: &Response, b: &Response)
    requires
        a.spec_status() == b.spec_status(),
        a.spec_body() == b.spec_body(),
    ensures
        encode_utf8(a.wire()) == encode_utf8(b.wire()),
{
}

} // verus!
