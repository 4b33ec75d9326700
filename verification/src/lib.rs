//! A minimal HTTP/1.1 request pipeline: wire bytes are parsed into a request,
//! the request is matched against a table of (method, path) routes, and the
//! response of the chosen handler is rendered back into wire bytes.

pub mod bytes;
pub mod method;
pub mod headers;
pub mod parse;
pub mod status;
pub mod response;
pub mod response_builder;
pub mod into_response;
pub mod handler;
pub mod router;
pub mod handler_examples;
pub mod wire;
pub mod connection;
