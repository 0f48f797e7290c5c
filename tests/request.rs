use minihttp::{Method, ParseError, Request, Value};

fn padded(line: &str) -> Vec<u8> {
    let mut buf = vec![0u8; 1024];
    buf[..line.len()].copy_from_slice(line.as_bytes());
    buf
}

#[test]
fn search_request_line() {
    let r = Request::parse(b"GET /search?q=rust HTTP/1.1\r\n").unwrap();
    assert_eq!(r.method(), Method::GET);
    assert_eq!(r.path(), "/search");
    assert_eq!(r.version(), "1.1");
    let q = r.query().unwrap();
    assert!(matches!(q.get("q"), Some(Value::Single(s)) if s == "rust"));
}

#[test]
fn fewer_than_three_tokens_is_malformed() {
    assert_eq!(Request::parse(b"GET /\r\n").unwrap_err(), ParseError::MalformedRequestLine);
    assert_eq!(Request::parse(b"GET\r\n").unwrap_err(), ParseError::MalformedRequestLine);
    assert_eq!(Request::parse(b"").unwrap_err(), ParseError::MalformedRequestLine);
    assert_eq!(Request::parse(b"\r\nGET / HTTP/1.1").unwrap_err(), ParseError::MalformedRequestLine);
    assert_eq!(Request::parse(b"BOGUS").unwrap_err(), ParseError::MalformedRequestLine);
}

#[test]
fn more_than_three_tokens_is_malformed() {
    let e = Request::parse(b"GET / HTTP/1.1 extra\r\n").unwrap_err();
    assert_eq!(e, ParseError::MalformedRequestLine);
}

#[test]
fn invalid_utf8_is_invalid_encoding() {
    let e = Request::parse(&[0x47, 0x45, 0x54, 0x20, 0xff, 0x20]).unwrap_err();
    assert_eq!(e, ParseError::InvalidEncoding);
}

#[test]
fn unknown_method_is_rejected() {
    let e = Request::parse(b"FETCH / HTTP/1.1\r\n").unwrap_err();
    assert_eq!(e, ParseError::InvalidMethod);
    let e = Request::parse(b"get / HTTP/1.1\r\n").unwrap_err();
    assert_eq!(e, ParseError::InvalidMethod);
}

#[test]
fn unknown_protocol_is_rejected() {
    let e = Request::parse(b"GET / HTTP/1.0\r\n").unwrap_err();
    assert_eq!(e, ParseError::InvalidProtocol);
}

#[test]
fn method_is_checked_before_protocol() {
    let e = Request::parse(b"FETCH / HTTP/2\r\n").unwrap_err();
    assert_eq!(e, ParseError::InvalidMethod);
}

#[test]
fn every_method_is_accepted() {
    let names = ["GET", "DELETE", "POST", "PUT", "HEAD", "CONNECT", "OPTIONS", "TRACE", "PATCH"];
    let methods = [
        Method::GET,
        Method::DELETE,
        Method::POST,
        Method::PUT,
        Method::HEAD,
        Method::CONNECT,
        Method::OPTIONS,
        Method::TRACE,
        Method::PATCH,
    ];
    for (n, m) in names.iter().zip(methods.iter()) {
        let line = format!("{} /x HTTP/1.1\r\n", n);
        assert_eq!(Request::parse(line.as_bytes()).unwrap().method(), *m);
        assert_eq!(Method::from_name(n), Some(*m));
    }
    assert_eq!(Method::from_name("Get"), None);
}

#[test]
fn path_without_query_has_no_query() {
    let r = Request::parse(b"POST /submit HTTP/1.1\r\nHost: x\r\n\r\nbody").unwrap();
    assert_eq!(r.method(), Method::POST);
    assert_eq!(r.path(), "/submit");
    assert!(r.query().is_none());
}

#[test]
fn empty_query_after_mark() {
    let r = Request::parse(b"GET /a? HTTP/1.1\r\n").unwrap();
    assert_eq!(r.path(), "/a");
    let q = r.query().unwrap();
    assert!(matches!(q.get(""), Some(Value::Single(s)) if s.is_empty()));
}

#[test]
fn target_split_at_first_question_mark() {
    let r = Request::parse(b"GET /p?a=1?b&a=2 HTTP/1.1\r\n").unwrap();
    assert_eq!(r.path(), "/p");
    let q = r.query().unwrap();
    assert!(matches!(q.get("a"), Some(Value::Multiple(v)) if v == &vec!["1?b".to_string(), "2".to_string()]));
}

#[test]
fn zero_padded_buffer_parses() {
    let r = Request::parse(&padded("GET /index.html HTTP/1.1\r\nHost: localhost\r\n\r\n")).unwrap();
    assert_eq!(r.path(), "/index.html");
    assert_eq!(r.version(), "1.1");
}

#[test]
fn zero_padded_line_without_newline_is_rejected() {
    // The single fixed-size read keeps the padding: without a line end the
    // protocol token runs into it.
    let e = Request::parse(&padded("GET / HTTP/1.1")).unwrap_err();
    assert_eq!(e, ParseError::InvalidProtocol);
}

#[test]
fn line_without_newline_parses() {
    let r = Request::parse(b"GET / HTTP/1.1").unwrap();
    assert_eq!(r.path(), "/");
}

#[test]
fn tabs_and_repeated_spaces_separate_tokens() {
    let r = Request::parse(b"  GET\t/t   HTTP/1.1 \r\n").unwrap();
    assert_eq!(r.method(), Method::GET);
    assert_eq!(r.path(), "/t");
}

#[test]
fn non_ascii_path() {
    let r = Request::parse("GET /été?x=ü HTTP/1.1\r\n".as_bytes()).unwrap();
    assert_eq!(r.path(), "/été");
    assert!(matches!(r.query().unwrap().get("x"), Some(Value::Single(s)) if s == "ü"));
}

#[test]
fn error_messages() {
    assert_eq!(ParseError::InvalidEncoding.message(), "Invalid Encoding");
    assert_eq!(ParseError::MalformedRequestLine.message(), "Malformed Request Line");
    assert_eq!(ParseError::InvalidMethod.message(), "Invalid Method");
    assert_eq!(ParseError::InvalidProtocol.message(), "Invalid Protocol");
}
