//! Ready-made responses.

use crate::response::{Response, ResponseView};
use crate::status::Status;
use vstd::prelude::*;

verus! {

/// The plain response: 200 OK, version `HTTP/1.1`, no headers, no body.
pub open spec fn default_response() -> ResponseView {
    ResponseView {
        code: 200,
        reason: "OK"@,
        version: "HTTP/1.1"@,
        headers: Seq::empty(),
        body: None,
    }
}

/// The plain response with the status 500 Internal Server Error.
pub open spec fn server_error_response() -> ResponseView {
    ResponseView { code: 500, reason: "Internal Server Error"@, ..default_response() }
}

/// The plain response with a JSON body: the header `Content-Type` says
/// `application/json`, and the bytes are the body.
pub open spec fn json_response(body: Seq<u8>) -> ResponseView {
    ResponseView {
        headers: seq![("Content-Type"@, seq!["application/json"@])],
        body: Some(body),
        ..default_response()
    }
}

/// Builds a response, starting from the plain one.
pub struct ResponseBuilder {
    response: Response,
}

impl View for ResponseBuilder {
    type V = ResponseView;

    closed spec fn view(&self) -> ResponseView {
        self.response@
    }
}

impl Default for ResponseBuilder {
    fn default() -> (b: ResponseBuilder)
        ensures
            b@ == default_response(),
    {
        ResponseBuilder { response: Response::new(Status::ok()) }
    }
}

impl ResponseBuilder {
    fn set_status(self, status: Status) -> (b: ResponseBuilder)
        ensures
            b@ == (ResponseView { code: status.code, reason: status.reason@, ..self@ }),
    {
        let mut b = self;
        b.response.set_status(status);
        b
    }

    /// The plain response with the status 500.
    pub fn internal_server_error() -> (b: ResponseBuilder)
        ensures
            b@ == server_error_response(),
    {
        ResponseBuilder::default().set_status(Status::internal_server_error())
    }

    /// The plain response with `body` attached as JSON.
    pub fn json(body: Vec<u8>) -> (b: ResponseBuilder)
        ensures
            b@ == json_response(body@),
    {
        let mut b = ResponseBuilder::default();
        b.response.set_body(body);
        b.response.append_header("Content-Type", "application/json");
        assert(b@.headers =~= seq![("Content-Type"@, seq!["application/json"@])]);
        b
    }

    /// The response that was built.
    pub fn build(self) -> (r: Response)
        ensures
            r@ == self@,
    {
        self.response
    }
}

} // verus!
