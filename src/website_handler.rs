//! Routing of a static website: which file a request asks for, and the response
//! once the file has been read (or not).

use vstd::prelude::*;
use crate::method::Method;
use crate::request::Request;
use crate::response::Response;
use crate::status_code::StatusCode;
use crate::text::same_text;

verus! {

/// A site served from the files under a public directory.
#[derive(Debug)]
pub struct WebsiteHandler {
    public_path: String,
}

/// What a request asks of the site.
#[derive(Debug)]
pub enum Route {
    /// A page of the site: `200 OK`, with the file's contents when it can be read.
    Page(String),
    /// Any other file: `200 OK` with its contents, or `404 Not Found`.
    File(String),
    /// Nothing this site serves: `404 Not Found`.
    Missing,
}

/// The route the site takes for `method` and `path`.
pub open spec fn route_of(method: Method, path: Seq<char>) -> (Option<Seq<char>>, bool) {
    if method != Method::GET {
        (None, false)
    } else if path == seq!['/'] {
        (Some(seq!['i', 'n', 'd', 'e', 'x', '.', 'h', 't', 'm', 'l']), true)
    } else if path == seq!['/', 'h', 'e', 'l', 'l', 'o'] {
        (Some(seq!['h', 'e', 'l', 'l', 'o', '.', 'h', 't', 'm', 'l']), true)
    } else {
        (Some(path), false)
    }
}

/// A route as (file, whether it is a page).
pub open spec fn route_view(r: Route) -> (Option<Seq<char>>, bool) {
    match r {
        Route::Page(f) => (Some(f@), true),
        Route::File(f) => (Some(f@), false),
        Route::Missing => (None, false),
    }
}

impl WebsiteHandler {
    /// The public directory, in specifications.
    pub closed spec fn spec_public_path(&self) -> Seq<char> {
        self.public_path@
    }

    /// A site served from `public_path`.
    pub fn new(public_path: String) -> (r: WebsiteHandler)
        ensures
            r.spec_public_path() == public_path@,
    {
        WebsiteHandler { public_path }
    }

    /// The directory the files are served from.
    pub fn public_path(&self) -> (r: &str)
        ensures
            r@ == self.spec_public_path(),
    {
        self.public_path.as_str()
    }

    /// Only `GET` is served: `/` is the page `index.html`, `/hello` the page
    /// `hello.html`, and any other path the file of that name.
    pub fn route(request: &Request) -> (r: Route)
        ensures
            route_view(r) == route_of(request.spec_method(), request.spec_path()),
    {
        match request.method() {
            Method::GET => {
                let path = request.path();
                proof {
                    reveal_strlit("/");
                    reveal_strlit("/hello");
                    reveal_strlit("index.html");
                    reveal_strlit("hello.html");
                    assert("/"@ =~= seq!['/']);
                    assert("/hello"@ =~= seq!['/', 'h', 'e', 'l', 'l', 'o']);
                    assert("index.html"@ =~= seq!['i', 'n', 'd', 'e', 'x', '.', 'h', 't', 'm', 'l']);
                    assert("hello.html"@ =~= seq!['h', 'e', 'l', 'l', 'o', '.', 'h', 't', 'm', 'l']);
                }
                if same_text(path, "/") {
                    Route::Page("index.html".to_owned())
                } else if same_text(path, "/hello") {
                    Route::Page("hello.html".to_owned())
                } else {
                    Route::File(path.to_owned())
                }
            },
            _ => Route::Missing,
        }
    }

    /// The response once the route's file has been read: `contents` is `None`
    /// when it could not be.
    pub fn respond(route: &Route, contents: Option<String>) -> (r: Response)
        ensures
            route_view(*route).1 ==> r.spec_status() == StatusCode::OK,
            route_view(*route).1 ==> r.spec_body() == (match contents {
                Some(c) => Some(c@),
                None => None::<Seq<char>>,
            }),
            !route_view(*route).1 ==> (contents is Some && route_view(*route).0 is Some <==> r.spec_status() == StatusCode::OK),
            !route_view(*route).1 && r.spec_status() == StatusCode::OK ==> r.spec_body() == Some(contents->0@),
            !route_view(*route).1 && r.spec_status() != StatusCode::OK ==> r.spec_status() == StatusCode::NotFound && r.spec_body() is None,
    {
        match route {
            Route::Page(_) => Response::new(StatusCode::OK, contents),
            Route::File(_) => match contents {
                Some(c) => Response::new(StatusCode::OK, Some(c)),
                None => Response::new(StatusCode::NotFound, None),
            },
            Route::Missing => Response::new(StatusCode::NotFound, None),
        }
    }
}

} // verus!
