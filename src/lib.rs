//! A minimal HTTP/1.1 request parser and response serializer: the request line
//! is read into a method, a path, query parameters and a version, and a response
//! is written as a status line, a blank line and a body.

mod text;
pub mod http_server;
pub mod method;
pub mod query_string;
pub mod request;
pub mod response;
pub mod status_code;
pub mod website_handler;

pub use http_server::{Handler, HttpServer};
pub use method::Method;
pub use query_string::{QueryString, Value};
pub use request::{ParseError, Request};
pub use response::Response;
pub use status_code::StatusCode;
pub use website_handler::{Route, WebsiteHandler};
