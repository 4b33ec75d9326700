use mini_http::handler::{handler_result, FnHandler, Handler, HandlerError, HandlerResult};
use mini_http::handler_examples::test_handler;
use mini_http::into_response::as_response;
use mini_http::method::Method;
use mini_http::parse::{parse_request, ParsedRequest};
use mini_http::response::{response_to_buffer, Response};
use mini_http::router::{
    default_error_handler, default_not_found_handler, recover, Fallback, Router, RouterError,
};
use mini_http::status::Status;
use std::sync::atomic::{AtomicUsize, Ordering};
use std::sync::Arc;

struct Unserializable;

impl serde::Serialize for Unserializable {
    fn serialize<S: serde::Serializer>(&self, _serializer: S) -> Result<S::Ok, S::Error> {
        Err(serde::ser::Error::custom("cannot be written"))
    }
}

/// A handler for the tests: answers with a fixed body, or fails, and counts
/// how often it was asked.
struct Scripted {
    body: Option<&'static str>,
    code: u16,
    calls: Arc<AtomicUsize>,
}

impl Scripted {
    fn says(body: &'static str) -> Scripted {
        Scripted { body: Some(body), code: 200, calls: Arc::new(AtomicUsize::new(0)) }
    }

    fn fails() -> Scripted {
        Scripted { body: None, code: 200, calls: Arc::new(AtomicUsize::new(0)) }
    }

    fn counted(mut self, calls: &Arc<AtomicUsize>) -> Scripted {
        self.calls = calls.clone();
        self
    }

    fn with_code(mut self, code: u16) -> Scripted {
        self.code = code;
        self
    }
}

impl Handler for Scripted {
    fn call(&self, _request: &ParsedRequest) -> HandlerResult {
        self.calls.fetch_add(1, Ordering::SeqCst);
        match self.body {
            Some(text) => {
                let mut r = Response::new(Status::from_code(self.code).unwrap());
                r.set_body(text.as_bytes().to_vec());
                Ok(r)
            }
            None => handler_result(as_response(&Unserializable)),
        }
    }
}

fn request(raw: &str) -> ParsedRequest {
    parse_request(raw.as_bytes().to_vec()).unwrap()
}

#[test]
fn empty_router_answers_not_found() {
    let router: Router<Scripted> = Router::new();
    for raw in ["GET / HTTP/1.1\r\n\r\n", "POST /test HTTP/1.1\r\nA: b\r\n\r\nbody", "DELETE /x y"] {
        let response = router.handle_route(&request(raw));
        assert_eq!(response.status.code, 404);
        assert_eq!(response.status.reason, "Not Found");
        assert_eq!(response.version, "HTTP/1.1");
        assert_eq!(response.headers.len(), 0);
        assert_eq!(response.body, Some(b"Page not found".to_vec()));
        assert_eq!(
            response_to_buffer(&response),
            b"HTTP/1.1 404 Not Found\r\n\r\nPage not found".to_vec()
        );
    }
}

#[test]
fn registered_route_is_dispatched_and_serialized() {
    let mut router = Router::new();
    router.add(&Method::Get, "/test", Scripted::says("Hello, world!"));
    let response = router.handle_route(&request("GET /test HTTP/1.1\r\n\r\n"));
    assert_eq!(response.status.code, 200);
    assert_eq!(response.headers.len(), 0);
    assert_eq!(response.body, Some(b"Hello, world!".to_vec()));
    assert_eq!(response_to_buffer(&response), b"HTTP/1.1 200 OK\r\n\r\nHello, world!".to_vec());
}

#[test]
fn matching_is_exact_on_method_and_path() {
    let mut router = Router::new();
    router.add(&Method::Get, "/test", Scripted::says("here"));
    for raw in [
        "POST /test HTTP/1.1\r\n\r\n",
        "GET /test/ HTTP/1.1\r\n\r\n",
        "GET /tes HTTP/1.1\r\n\r\n",
        "GET /Test HTTP/1.1\r\n\r\n",
        "GET /test?x=1 HTTP/1.1\r\n\r\n",
    ] {
        assert_eq!(router.handle_route(&request(raw)).status.code, 404);
    }
    assert_eq!(router.handle_route(&request("get /test HTTP/1.1\r\n\r\n")).status.code, 200);
}

#[test]
fn failing_handler_yields_server_error() {
    let first = Arc::new(AtomicUsize::new(0));
    let mut router = Router::new();
    router.add(&Method::Get, "/broken", Scripted::fails().counted(&first));
    let response = router.handle_route(&request("GET /broken HTTP/1.1\r\n\r\n"));
    assert_eq!(first.load(Ordering::SeqCst), 1);
    assert_eq!(response.status.code, 500);
    assert_eq!(response.status.reason, "Internal Server Error");
    assert_eq!(response.headers.len(), 0);
    assert!(response.body.is_none());
    assert_eq!(
        response_to_buffer(&response),
        b"HTTP/1.1 500 Internal Server Error\r\n\r\n".to_vec()
    );
}

#[test]
fn second_registration_replaces_the_first() {
    let first = Arc::new(AtomicUsize::new(0));
    let second = Arc::new(AtomicUsize::new(0));
    let mut router = Router::new();
    router.add(&Method::Get, "/test", Scripted::says("one").counted(&first));
    router.add(&Method::Post, "/test", Scripted::says("post"));
    router.add(&Method::Get, "/test", Scripted::says("two").counted(&second));
    let response = router.handle_route(&request("GET /test HTTP/1.1\r\n\r\n"));
    assert_eq!(response.body, Some(b"two".to_vec()));
    assert_eq!(first.load(Ordering::SeqCst), 0);
    assert_eq!(second.load(Ordering::SeqCst), 1);
    let response = router.handle_route(&request("POST /test HTTP/1.1\r\n\r\n"));
    assert_eq!(response.body, Some(b"post".to_vec()));
}

#[test]
fn resolve_handler_finds_only_registered_pairs() {
    let mut router = Router::new();
    router.add(&Method::Get, "/a", Scripted::says("a"));
    router.add(&Method::Put, "/b", Scripted::says("b"));
    assert_eq!(router.resolve_handler(&Method::Get, "/a").unwrap().body, Some("a"));
    assert_eq!(router.resolve_handler(&Method::Put, "/b").unwrap().body, Some("b"));
    assert_eq!(router.resolve_handler(&Method::Put, "/a").err(), Some(RouterError::HandlerNotFound));
    assert_eq!(router.resolve_handler(&Method::Get, "").err(), Some(RouterError::HandlerNotFound));
}

#[test]
fn custom_fallbacks_are_used() {
    let missed = Arc::new(AtomicUsize::new(0));
    let rescued = Arc::new(AtomicUsize::new(0));
    let mut router = Router::new()
        .with_not_found_handler(Scripted::says("nothing here").with_code(410).counted(&missed))
        .with_error_handler(Scripted::says("oops").with_code(503).counted(&rescued));
    assert!(matches!(router.not_found_handler(), Fallback::Custom(_)));
    assert!(matches!(router.error_handler(), Fallback::Custom(_)));
    router.add(&Method::Get, "/broken", Scripted::fails());
    router.add(&Method::Get, "/fine", Scripted::says("fine"));
    let response = router.handle_route(&request("GET /nowhere HTTP/1.1\r\n\r\n"));
    assert_eq!(response.status.code, 410);
    assert_eq!(response.body, Some(b"nothing here".to_vec()));
    assert_eq!((missed.load(Ordering::SeqCst), rescued.load(Ordering::SeqCst)), (1, 0));
    let response = router.handle_route(&request("GET /broken HTTP/1.1\r\n\r\n"));
    assert_eq!(response.status.code, 503);
    assert_eq!(response.body, Some(b"oops".to_vec()));
    assert_eq!((missed.load(Ordering::SeqCst), rescued.load(Ordering::SeqCst)), (1, 1));
    let response = router.handle_route(&request("GET /fine HTTP/1.1\r\n\r\n"));
    assert_eq!(response.body, Some(b"fine".to_vec()));
    assert_eq!((missed.load(Ordering::SeqCst), rescued.load(Ordering::SeqCst)), (1, 1));
}

#[test]
fn failing_fallbacks_still_yield_responses() {
    let mut router = Router::new()
        .with_not_found_handler(Scripted::fails())
        .with_error_handler(Scripted::fails());
    router.add(&Method::Get, "/broken", Scripted::fails());
    let response = router.handle_route(&request("GET /broken HTTP/1.1\r\n\r\n"));
    assert_eq!(response.status.code, 500);
    let response = router.handle_route(&request("GET /nowhere HTTP/1.1\r\n\r\n"));
    assert_eq!(response.status.code, 500);
}

#[test]
fn new_router_has_built_in_fallbacks() {
    let router: Router<Scripted> = Router::new();
    assert!(matches!(router.not_found_handler(), Fallback::BuiltIn));
    assert!(matches!(router.error_handler(), Fallback::BuiltIn));
}

#[test]
fn built_in_handlers() {
    let req = request("GET / HTTP/1.1\r\n\r\n");
    let r = default_not_found_handler(&req).unwrap();
    assert_eq!(r.status.code, 404);
    assert_eq!(r.body, Some(b"Page not found".to_vec()));
    let r = default_error_handler(&req).unwrap();
    assert_eq!(r.status.code, 500);
    assert!(r.body.is_none());
}

#[test]
fn recover_keeps_a_response_and_replaces_a_failure() {
    let mut given = Response::new(Status::from_code(503).unwrap());
    given.set_body(b"later".to_vec());
    let r = recover(Ok(given));
    assert_eq!(r.status.code, 503);
    assert_eq!(r.body, Some(b"later".to_vec()));
    let failure = handler_result(as_response(&Unserializable));
    assert!(matches!(failure, Err(HandlerError::SerializationError(_))));
    let r = recover(failure);
    assert_eq!(r.status.code, 500);
    assert_eq!(r.status.reason, "Internal Server Error");
    assert!(r.body.is_none());
}

#[test]
fn handler_result_passes_a_response_on() {
    let r = handler_result(as_response(&7u8)).unwrap();
    assert_eq!(r.body, Some(b"7".to_vec()));
}

#[test]
fn sample_handler_greets() {
    let r = test_handler(&request("GET /test HTTP/1.1\r\n\r\n")).unwrap();
    assert_eq!(r.status.code, 200);
    assert_eq!(r.headers.get("Content-Type"), Some(&vec!["text/plain".to_string()]));
    assert_eq!(r.body, Some(b"Hello, world!".to_vec()));
    assert_eq!(
        response_to_buffer(&r),
        b"HTTP/1.1 200 OK\r\nContent-Type: text/plain\r\n\r\nHello, world!".to_vec()
    );
}

type BoxedFn = Box<dyn Fn(&ParsedRequest) -> HandlerResult + Send + Sync>;

#[test]
fn functions_are_handlers() {
    let mut router = Router::new();
    router.add(&Method::Get, "/test", FnHandler::new(test_handler));
    let response = router.handle_route(&request("GET /test HTTP/1.1\r\n\r\n"));
    assert_eq!(response.body, Some(b"Hello, world!".to_vec()));
    assert_eq!(response.headers.get("Content-Type"), Some(&vec!["text/plain".to_string()]));
    let response = router.handle_route(&request("GET /other HTTP/1.1\r\n\r\n"));
    assert_eq!(response.status.code, 404);
}

#[test]
fn closures_and_structs_share_a_table() {
    let stateful = Scripted::says("from a struct");
    let echo: BoxedFn = Box::new(|req: &ParsedRequest| {
        let mut r = Response::new(Status::ok());
        r.set_body(req.path.as_bytes().to_vec());
        Ok(r)
    });
    let wrapped: BoxedFn = Box::new(move |req: &ParsedRequest| stateful.call(req));
    let plain: BoxedFn = Box::new(test_handler);
    let mut router = Router::new();
    router.add(&Method::Get, "/echo", FnHandler::new(echo));
    router.add(&Method::Get, "/struct", FnHandler::new(wrapped));
    router.add(&Method::Get, "/fn", FnHandler::new(plain));
    let response = router.handle_route(&request("GET /echo HTTP/1.1\r\n\r\n"));
    assert_eq!(response.body, Some(b"/echo".to_vec()));
    let response = router.handle_route(&request("GET /struct HTTP/1.1\r\n\r\n"));
    assert_eq!(response.body, Some(b"from a struct".to_vec()));
    let response = router.handle_route(&request("GET /fn HTTP/1.1\r\n\r\n"));
    assert_eq!(response.body, Some(b"Hello, world!".to_vec()));
}

#[test]
fn dispatch_steps_name_the_handlers() {
    let mut router = Router::new().with_error_handler(Scripted::says("rescue"));
    router.add(&Method::Get, "/a", Scripted::says("a"));
    let hit = request("GET /a HTTP/1.1\r\n\r\n");
    let miss = request("GET /b HTTP/1.1\r\n\r\n");
    assert_eq!(router.first_handler(&hit).ok().unwrap().body, Some("a"));
    assert!(matches!(router.first_handler(&miss), Err(Fallback::BuiltIn)));
    let mut given = Response::new(Status::ok());
    given.set_body(b"done".to_vec());
    let settled = router.after_first(Ok(given)).ok().unwrap();
    assert_eq!(settled.body, Some(b"done".to_vec()));
    let failure = handler_result(as_response(&Unserializable));
    match router.after_first(failure) {
        Err(Fallback::Custom(handler)) => assert_eq!(handler.body, Some("rescue")),
        _ => panic!("the error fallback follows a failure"),
    }
}

#[test]
fn errors_in_words() {
    assert_eq!(RouterError::HandlerNotFound.message(), "Handler not found");
    let failure = as_response(&Unserializable).unwrap_err();
    let text = failure.message();
    assert!(text.starts_with("Received an unserializable body "));
    assert!(text.len() > "Received an unserializable body ".len());
    let wrapped = HandlerError::from(failure);
    assert_eq!(wrapped.message(), format!("Serialization error {}", text));
}
