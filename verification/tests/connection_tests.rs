use mini_http::connection::answer;
use mini_http::handler::{FnHandler, HandlerResult};
use mini_http::handler_examples::test_handler;
use mini_http::method::Method;
use mini_http::parse::{ParseRequestError, ParsedRequest};
use mini_http::router::Router;

type Greeter = FnHandler<fn(&ParsedRequest) -> HandlerResult>;

fn greeting_router() -> Router<Greeter> {
    let mut router = Router::new();
    let greet: fn(&ParsedRequest) -> HandlerResult = test_handler;
    router.add(&Method::Get, "/test", FnHandler::new(greet));
    router
}

#[test]
fn empty_read_is_answered_with_nothing() {
    assert_eq!(answer(&greeting_router(), Vec::new()), Ok(None));
}

#[test]
fn request_is_answered_with_wire_bytes() {
    let reply = answer(&greeting_router(), b"GET /test HTTP/1.1\r\nHost: x\r\n\r\n".to_vec());
    let expected = b"HTTP/1.1 200 OK\r\nContent-Type: text/plain\r\n\r\nHello, world!".to_vec();
    assert_eq!(reply, Ok(Some(expected)));
}

#[test]
fn unmatched_request_is_answered_with_not_found() {
    let reply = answer(&greeting_router(), b"GET /missing HTTP/1.1\r\n\r\n".to_vec());
    assert_eq!(reply, Ok(Some(b"HTTP/1.1 404 Not Found\r\n\r\nPage not found".to_vec())));
}

#[test]
fn unparsable_bytes_end_with_the_parse_error() {
    let router = greeting_router();
    assert_eq!(answer(&router, b"GET /test".to_vec()), Err(ParseRequestError::IncompleteRequest));
    assert_eq!(
        answer(&router, b"FETCH /test HTTP/1.1\r\n\r\n".to_vec()),
        Err(ParseRequestError::InvalidMethod)
    );
    assert_eq!(answer(&router, b"\n".to_vec()), Err(ParseRequestError::IncompleteRequest));
}
