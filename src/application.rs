//! An example application: greets on `GET /hello` and leaves every other
//! request to the static files.
use vstd::prelude::*;
use vstd::string::*;
use vstd::utf8::*;

use crate::bytes::bytes_eq;
use crate::http::HttpApplication;
use crate::request::{Request, RequestView};
use crate::response::{Response, ResponseView, StatusCode};
use crate::Method;

verus! {

pub struct Application;

/// The example's answer: a greeting for `GET /hello`, nothing otherwise.
pub open spec fn greeting_for(q: RequestView) -> Option<ResponseView> {
    if q.method == Method::Get && encode_utf8(q.path) == "/hello".spec_bytes() {
        Some(
            ResponseView { status: StatusCode::OK, body: "Hello, World"@, headers: seq![] },
        )
    } else {
        None
    }
}

impl Application {
    /// Answers a request as `greeting_for` describes.
    pub fn greet(req: &Request) -> (r: Option<Response>)
        ensures
            match r {
                Some(x) => greeting_for(req@) == Some(x@),
                None => greeting_for(req@) is None,
            },
    {
        if req.method == Method::Get && bytes_eq(req.path.as_str().as_bytes(), "/hello".as_bytes()) {
            let resp = Response {
                status: StatusCode::OK,
                body: String::from_str("Hello, World"),
                headers: Vec::new(),
            };
            assert(resp@.headers =~= seq![]);
            Some(resp)
        } else {
            None
        }
    }
}

impl HttpApplication for Application {
    fn handle_request(&self, req: Request) -> Option<Response> {
        Application::greet(&req)
    }
}

} // verus!
