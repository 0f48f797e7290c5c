use minihttp::{Response, StatusCode};

#[test]
fn ok_with_body() {
    let r = Response::new(StatusCode::OK, Some("hi".to_string()));
    assert_eq!(r.to_bytes(), b"HTTP/1.1 200 OK\r\n\nhi".to_vec());
}

#[test]
fn not_found_without_body() {
    let r = Response::new(StatusCode::NotFound, None);
    assert_eq!(r.to_bytes(), b"HTTP/1.1 404 Not Found\r\n\n".to_vec());
}

#[test]
fn bad_request_without_body() {
    let r = Response::new(StatusCode::BadRequest, None);
    assert_eq!(r.to_text(), "HTTP/1.1 400 Bad Request\r\n\n");
}

#[test]
fn empty_body_same_as_none() {
    let a = Response::new(StatusCode::OK, Some(String::new()));
    let b = Response::new(StatusCode::OK, None);
    assert_eq!(a.to_bytes(), b.to_bytes());
}

#[test]
fn repeated_serialization_is_identical() {
    let r = Response::new(StatusCode::OK, Some("<h1>héllo</h1>".to_string()));
    let first = r.to_bytes();
    let second = r.to_bytes();
    assert_eq!(first, second);
    let mut a: Vec<u8> = Vec::new();
    let mut b: Vec<u8> = Vec::new();
    r.send(&mut a);
    r.send(&mut b);
    assert_eq!(a, b);
    assert_eq!(a, first);
}

#[test]
fn send_writes_wire_bytes() {
    let r = Response::new(StatusCode::NotFound, Some("gone".to_string()));
    let mut sink: Vec<u8> = Vec::new();
    r.send(&mut sink);
    assert_eq!(sink, b"HTTP/1.1 404 Not Found\r\n\ngone".to_vec());
}

#[test]
fn send_appends_after_existing_bytes() {
    let r = Response::new(StatusCode::OK, Some("hi".to_string()));
    let mut sink: Vec<u8> = b"xy".to_vec();
    r.send(&mut sink);
    assert_eq!(sink, b"xyHTTP/1.1 200 OK\r\n\nhi".to_vec());
}

#[test]
fn non_ascii_body_is_utf8() {
    let r = Response::new(StatusCode::OK, Some("é".to_string()));
    assert_eq!(r.to_bytes(), b"HTTP/1.1 200 OK\r\n\n\xc3\xa9".to_vec());
}

#[test]
fn status_table() {
    assert_eq!(StatusCode::OK.code(), 200);
    assert_eq!(StatusCode::BadRequest.code(), 400);
    assert_eq!(StatusCode::NotFound.code(), 404);
    assert_eq!(StatusCode::OK.code_text(), "200");
    assert_eq!(StatusCode::BadRequest.code_text(), "400");
    assert_eq!(StatusCode::NotFound.code_text(), "404");
    assert_eq!(StatusCode::OK.reason_phrase(), "OK");
    assert_eq!(StatusCode::BadRequest.reason_phrase(), "Bad Request");
    assert_eq!(StatusCode::NotFound.reason_phrase(), "Not Found");
}

#[test]
fn accessors() {
    let r = Response::new(StatusCode::NotFound, Some("x".to_string()));
    assert_eq!(r.status_code(), StatusCode::NotFound);
    assert_eq!(r.body(), Some("x"));
    assert_eq!(Response::new(StatusCode::OK, None).body(), None);
}
