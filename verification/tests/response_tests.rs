use mini_http::headers::Headers;
use mini_http::into_response::{as_response, response_from_encoded, SerializeError};
use mini_http::response::{push_decimal, push_header_line, push_text, response_to_buffer, Response};
use mini_http::response_builder::ResponseBuilder;
use mini_http::status::Status;

struct Unserializable;

impl serde::Serialize for Unserializable {
    fn serialize<S: serde::Serializer>(&self, _serializer: S) -> Result<S::Ok, S::Error> {
        Err(serde::ser::Error::custom("cannot be written"))
    }
}

#[test]
fn status_from_code_gives_canonical_reason() {
    let s = Status::from_code(418).unwrap();
    assert_eq!(s.code, 418);
    assert_eq!(s.reason, "I'm a teapot");
    let s = Status::from_code(201).unwrap();
    assert_eq!(s.reason, "Created");
}

#[test]
fn status_from_unknown_code_is_none() {
    assert!(Status::from_code(0).is_none());
    assert!(Status::from_code(299).is_none());
    assert!(Status::from_code(999).is_none());
}

#[test]
fn named_statuses() {
    let s = Status::ok();
    assert_eq!((s.code, s.reason.as_str()), (200, "OK"));
    let s = Status::not_found();
    assert_eq!((s.code, s.reason.as_str()), (404, "Not Found"));
    let s = Status::internal_server_error();
    assert_eq!((s.code, s.reason.as_str()), (500, "Internal Server Error"));
}

#[test]
fn headers_append_groups_by_name() {
    let mut h = Headers::new();
    assert_eq!(h.len(), 0);
    h.append("A".to_string(), "1".to_string());
    h.append("B".to_string(), "2".to_string());
    h.append("A".to_string(), "3".to_string());
    assert_eq!(h.len(), 2);
    assert_eq!(h.name_at(0), "A");
    assert_eq!(h.values_at(0), &vec!["1".to_string(), "3".to_string()]);
    assert_eq!(h.position(&"B".to_string()), Some(1));
    assert_eq!(h.position(&"C".to_string()), None);
    assert_eq!(h.get("B"), Some(&vec!["2".to_string()]));
    assert_eq!(h.get("C"), None);
}

#[test]
fn default_response_is_plain_ok() {
    let r = ResponseBuilder::default().build();
    assert_eq!(r.status.code, 200);
    assert_eq!(r.status.reason, "OK");
    assert_eq!(r.version, "HTTP/1.1");
    assert_eq!(r.headers.len(), 0);
    assert!(r.body.is_none());
    assert_eq!(response_to_buffer(&r), b"HTTP/1.1 200 OK\r\n\r\n".to_vec());
}

#[test]
fn internal_server_error_response() {
    let r = ResponseBuilder::internal_server_error().build();
    assert_eq!(r.status.code, 500);
    assert_eq!(r.status.reason, "Internal Server Error");
    assert_eq!(r.version, "HTTP/1.1");
    assert_eq!(r.headers.len(), 0);
    assert!(r.body.is_none());
    assert_eq!(response_to_buffer(&r), b"HTTP/1.1 500 Internal Server Error\r\n\r\n".to_vec());
}

#[test]
fn json_response_has_content_type_and_body() {
    let r = ResponseBuilder::json(b"{\"a\":1}".to_vec()).build();
    assert_eq!(r.status.code, 200);
    assert_eq!(r.headers.len(), 1);
    assert_eq!(r.headers.get("Content-Type"), Some(&vec!["application/json".to_string()]));
    assert_eq!(r.body, Some(b"{\"a\":1}".to_vec()));
    assert_eq!(
        response_to_buffer(&r),
        b"HTTP/1.1 200 OK\r\nContent-Type: application/json\r\n\r\n{\"a\":1}".to_vec()
    );
}

#[test]
fn serializer_writes_one_line_per_value() {
    let mut r = Response::new(Status::from_code(204).unwrap());
    r.append_header("Set-Cookie", "a=1");
    r.append_header("Vary", "Accept");
    r.append_header("Set-Cookie", "b=2");
    let expected = b"HTTP/1.1 204 No Content\r\nSet-Cookie: a=1\r\nSet-Cookie: b=2\r\nVary: Accept\r\n\r\n";
    assert_eq!(response_to_buffer(&r), expected.to_vec());
}

#[test]
fn serializer_writes_version_status_and_body() {
    let mut r = Response::new(Status::not_found());
    r.set_version("HTTP/1.0".to_string());
    r.set_body(b"gone\r\nfor good".to_vec());
    assert_eq!(response_to_buffer(&r), b"HTTP/1.0 404 Not Found\r\n\r\ngone\r\nfor good".to_vec());
    r.set_status(Status::ok());
    r.set_body(Vec::new());
    assert_eq!(response_to_buffer(&r), b"HTTP/1.0 200 OK\r\n\r\n".to_vec());
}

#[test]
fn serializer_writes_what_the_status_holds() {
    let r = Response::new(Status { code: 7, reason: "Lucky".to_string() });
    assert_eq!(response_to_buffer(&r), b"HTTP/1.1 7 Lucky\r\n\r\n".to_vec());
}

#[test]
fn decimal_digits() {
    for (n, text) in [(0u16, "0"), (9, "9"), (10, "10"), (404, "404"), (1000, "1000"), (65535, "65535")] {
        let mut out = b"x".to_vec();
        push_decimal(&mut out, n);
        assert_eq!(out, format!("x{}", text).into_bytes());
    }
}

#[test]
fn text_and_header_lines_are_appended() {
    let mut out = b">".to_vec();
    push_text(&mut out, "caf\u{e9}");
    assert_eq!(out, ">caf\u{e9}".as_bytes().to_vec());
    let mut out = b">".to_vec();
    push_header_line(&mut out, "Name", "Value");
    assert_eq!(out, b">Name: Value\r\n".to_vec());
}

#[test]
fn as_response_encodes_json() {
    let r = as_response(&vec![1u32, 2, 3]).unwrap();
    assert_eq!(r.status.code, 200);
    assert_eq!(r.headers.get("Content-Type"), Some(&vec!["application/json".to_string()]));
    assert_eq!(r.body, Some(b"[1,2,3]".to_vec()));
    let r = as_response(&"hi").unwrap();
    assert_eq!(r.body, Some(b"\"hi\"".to_vec()));
}

#[test]
fn as_response_reports_unserializable_body() {
    let r = as_response(&Unserializable);
    assert!(matches!(r, Err(SerializeError::UnserializableBody(_))));
}

#[test]
fn response_from_encoded_bytes() {
    let r = response_from_encoded(Ok(b"null".to_vec())).unwrap();
    assert_eq!(r.body, Some(b"null".to_vec()));
    assert_eq!(r.headers.get("Content-Type"), Some(&vec!["application/json".to_string()]));
    let failure = simd_json::to_vec(&Unserializable).unwrap_err();
    let r = response_from_encoded(Err(failure));
    assert!(matches!(r, Err(SerializeError::UnserializableBody(_))));
}
