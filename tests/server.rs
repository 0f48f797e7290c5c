use minihttp::http_server::{bad_request_response, respond};
use minihttp::{Handler, HttpServer, Method, Request, Response, Route, StatusCode, WebsiteHandler};

struct Echo {
    seen: Vec<String>,
}

impl Handler for Echo {
    fn handle_request(&mut self, request: &Request) -> Response {
        self.seen.push(request.path().to_string());
        Response::new(StatusCode::OK, Some(request.path().to_string()))
    }
}

#[test]
fn valid_request_goes_to_handler() {
    let mut h = Echo { seen: Vec::new() };
    let r = respond(&mut h, b"GET /echo HTTP/1.1\r\n\r\n");
    assert_eq!(r.to_text(), "HTTP/1.1 200 OK\r\n\n/echo");
    assert_eq!(h.seen, vec!["/echo".to_string()]);
}

#[test]
fn parse_error_gets_default_bad_request() {
    let mut h = Echo { seen: Vec::new() };
    let r = respond(&mut h, b"nonsense\r\n");
    assert_eq!(r.to_text(), "HTTP/1.1 400 Bad Request\r\n\n");
    assert!(h.seen.is_empty());
    assert_eq!(bad_request_response().to_text(), "HTTP/1.1 400 Bad Request\r\n\n");
}

#[test]
fn server_keeps_address() {
    let s = HttpServer::new("127.0.0.1:8080".to_string());
    assert_eq!(s.address(), "127.0.0.1:8080");
}

#[test]
fn website_routes() {
    let site = WebsiteHandler::new("/srv/public".to_string());
    assert_eq!(site.public_path(), "/srv/public");
    let root = Request::parse(b"GET / HTTP/1.1\r\n").unwrap();
    assert!(matches!(WebsiteHandler::route(&root), Route::Page(f) if f == "index.html"));
    let hello = Request::parse(b"GET /hello HTTP/1.1\r\n").unwrap();
    assert!(matches!(WebsiteHandler::route(&hello), Route::Page(f) if f == "hello.html"));
    let other = Request::parse(b"GET /style.css HTTP/1.1\r\n").unwrap();
    assert!(matches!(WebsiteHandler::route(&other), Route::File(f) if f == "/style.css"));
    let post = Request::parse(b"POST / HTTP/1.1\r\n").unwrap();
    assert_eq!(post.method(), Method::POST);
    assert!(matches!(WebsiteHandler::route(&post), Route::Missing));
}

#[test]
fn website_responses() {
    let page = Route::Page("index.html".to_string());
    assert_eq!(WebsiteHandler::respond(&page, None).to_text(), "HTTP/1.1 200 OK\r\n\n");
    assert_eq!(WebsiteHandler::respond(&page, Some("<p>".to_string())).to_text(), "HTTP/1.1 200 OK\r\n\n<p>");
    let file = Route::File("/a.css".to_string());
    assert_eq!(WebsiteHandler::respond(&file, None).to_text(), "HTTP/1.1 404 Not Found\r\n\n");
    assert_eq!(WebsiteHandler::respond(&file, Some("b{}".to_string())).to_text(), "HTTP/1.1 200 OK\r\n\nb{}");
    assert_eq!(WebsiteHandler::respond(&Route::Missing, Some("x".to_string())).to_text(), "HTTP/1.1 404 Not Found\r\n\n");
}
