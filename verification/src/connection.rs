//! One connection's work between reading and writing: the bytes that were
//! read are parsed, the request is dispatched, and the response is rendered.

use crate::handler::Handler;
use crate::parse::{parse_request, parsed, ParseRequestError, ParsedRequest};
use crate::response::{response_to_buffer, wire_bytes, ResponseView};
use crate::router::Router;
use vstd::prelude::*;

verus! {

/// `reply` is what a connection that read `buffer` is owed: nothing where
/// nothing was read; the parse error where the bytes are no request; else
/// the wire bytes of an answer of the router to the parsed request.
pub open spec fn serves<H: Handler>(
    router: &Router<H>,
    buffer: Seq<u8>,
    reply: Result<Option<Seq<u8>>, ParseRequestError>,
) -> bool {
    if buffer.len() == 0 {
        reply == Ok::<Option<Seq<u8>>, ParseRequestError>(None)
    } else {
        match parsed(buffer) {
            Err(e) => reply == Err::<Option<Seq<u8>>, ParseRequestError>(e),
            Ok(read) => exists|request: ParsedRequest, response: ResponseView|
                request@ == read && #[trigger] router.answers(&request, response) && reply
                    == Ok::<Option<Seq<u8>>, ParseRequestError>(Some(wire_bytes(response))),
        }
    }
}

/// The reply as mathematical values.
pub open spec fn reply_view(reply: Result<Option<Vec<u8>>, ParseRequestError>) -> Result<
    Option<Seq<u8>>,
    ParseRequestError,
> {
    match reply {
        Ok(Some(bytes)) => Ok(Some(bytes@)),
        Ok(None) => Ok(None),
        Err(e) => Err(e),
    }
}

/// Answers the bytes that a connection read. An empty read is answered with
/// nothing; bytes that do not parse end the connection with the parse error,
/// and nothing is written.
pub fn answer<H: Handler>(router: &Router<H>, buffer: Vec<u8>) -> (reply: Result<
    Option<Vec<u8>>,
    ParseRequestError,
>)
    ensures
        serves(router, buffer@, reply_view(reply)),
{
    if buffer.len() == 0 {
        return Ok(None);
    }
    let request = match parse_request(buffer) {
        Ok(request) => request,
        Err(e) => {
            return Err(e);
        },
    };
    let response = router.handle_route(&request);
    let bytes = response_to_buffer(&response);
    assert(router.answers(&request, response@));
    Ok(Some(bytes))
}

} // verus!
