//! A sample handler.

use crate::handler::HandlerResult;
use crate::parse::ParsedRequest;
use crate::response::{push_text, Response, ResponseView};
use crate::status::Status;
use vstd::prelude::*;
use vstd::utf8::encode_utf8;

verus! {

/// The greeting that `test_handler` answers with.
pub open spec fn greeting_response() -> ResponseView {
    ResponseView {
        code: 200,
        reason: "OK"@,
        version: "HTTP/1.1"@,
        headers: seq![("Content-Type"@, seq!["text/plain"@])],
        body: Some(encode_utf8("Hello, world!"@)),
    }
}

/// Answers every request with a plain-text greeting.
pub fn test_handler(_request: &ParsedRequest) -> (outcome: HandlerResult)
    ensures
        outcome matches Ok(response) && response@ == greeting_response(),
{
    let mut res = Response::new(Status::ok());
    let mut body: Vec<u8> = Vec::new();
    push_text(&mut body, "Hello, world!");
    assert(body@ =~= encode_utf8("Hello, world!"@));
    res.set_body(body);
    res.append_header("Content-Type", "text/plain");
    assert(res@.headers =~= seq![("Content-Type"@, seq!["text/plain"@])]);
    Ok(res)
}

} // verus!
