//! The server's configuration, the handler capability it dispatches to, and the
//! per-connection decision from the bytes read to the response.

use vstd::prelude::*;
use crate::request::{ParseError, Request};
use crate::response::Response;
use crate::status_code::StatusCode;

verus! {

/// What the server asks of the code that answers requests.
pub trait Handler {
    /// The response to a well-formed request.
    fn handle_request(&mut self, request: &Request) -> Response;

    /// The response to a buffer that is not a request: by default `400 Bad
    /// Request` with no body.
    fn handle_bad_request(&mut self, _e: &ParseError) -> Response {
        bad_request_response()
    }
}

/// The default answer to a buffer that is not a request.
pub fn bad_request_response() -> (r: Response)
    ensures
        r.spec_status() == StatusCode::BadRequest,
        r.spec_body() is None,
{
    Response::new(StatusCode::BadRequest, None)
}

/// The response for the bytes read from one connection: the buffer is parsed, a
/// request goes to `handle_request` and a parse error to `handle_bad_request`.
pub fn respond<H: Handler>(handler: &mut H, buf: &[u8]) -> Response {
    match Request::parse(buf) {
        Ok(request) => handler.handle_request(&request),
        Err(e) => handler.handle_bad_request(&e),
    }
}

/// A server: the address it listens on.
#[derive(Debug)]
pub struct HttpServer {
    address: String,
}

impl HttpServer {
    /// The address, in specifications.
    pub closed spec fn spec_address(&self) -> Seq<char> {
        self.address@
    }

    /// A server for `address` (such as `127.0.0.1:8080`).
    pub fn new(address: String) -> (r: HttpServer)
        ensures
            r.spec_address() == address@,
    {
        HttpServer { address }
    }

    /// The address to listen on.
    pub fn address(&self) -> (r: &str)
        ensures
            r@ == self.spec_address(),
    {
        self.address.as_str()
    }
}

} // verus!
