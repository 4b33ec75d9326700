//! Turning a serializable value into a JSON response.

use crate::response::Response;
use crate::response_builder::{json_response, ResponseBuilder};
use vstd::prelude::*;
use vstd::string::StringExecFns;

verus! {

/// The error of the JSON encoder, `simd_json::Error`: carried through as it
/// is, with nothing known of what it holds.
#[verifier::external_type_specification]
#[verifier::external_body]
pub struct ExJsonError(simd_json::Error);

/// Why a value did not become a response.
#[derive(Debug)]
pub enum SerializeError {
    /// The value could not be encoded as JSON.
    UnserializableBody(simd_json::Error),
}

/// Puts a JSON error into words with its `Display` implementation, that is
/// `simd_json::Error::to_string`. The wording is the outside crate's own, so
/// nothing is claimed of it.
#[verifier::external_body]
fn json_error_text(e: &simd_json::Error) -> (text: String) {
    e.to_string()
}

impl SerializeError {
    /// The error in words: a fixed opening, then the encoder's own account.
    pub fn message(&self) -> (text: String)
        ensures
            exists|detail: Seq<char>|
                text@ == #[trigger] ("Received an unserializable body "@ + detail),
    {
        match self {
            SerializeError::UnserializableBody(e) => {
                let detail = json_error_text(e);
                let text = "Received an unserializable body ".to_owned().concat(detail.as_str());
                assert(text@ == "Received an unserializable body "@ + detail@);
                text
            },
        }
    }
}

impl From<simd_json::Error> for SerializeError {
    fn from(e: simd_json::Error) -> (r: SerializeError) {
        SerializeError::UnserializableBody(e)
    }
}

impl vstd::std_specs::convert::FromSpecImpl<simd_json::Error> for SerializeError {
    open spec fn obeys_from_spec() -> bool {
        true
    }

    open spec fn from_spec(e: simd_json::Error) -> SerializeError {
        SerializeError::UnserializableBody(e)
    }
}

/// Encodes a value with `simd_json::to_vec`. Whether that succeeds, and with
/// which bytes, is decided by the value's own way of serializing itself, so
/// nothing is claimed of the result.
#[verifier::external_body]
fn to_json_bytes<T: serde::Serialize>(value: &T) -> (encoded: Result<Vec<u8>, simd_json::Error>) {
    simd_json::to_vec(value)
}

/// The response for the outcome of an encoding: encoded bytes become the body
/// of a JSON response; a failure is handed on as it is.
pub fn response_from_encoded(encoded: Result<Vec<u8>, simd_json::Error>) -> (r: Result<
    Response,
    SerializeError,
>)
    ensures
        match encoded {
            Ok(bytes) => r matches Ok(response) && response@ == json_response(bytes@),
            Err(e) => r matches Err(failure) && failure == SerializeError::UnserializableBody(e),
        },
{
    match encoded {
        Ok(bytes) => Ok(ResponseBuilder::json(bytes).build()),
        Err(e) => Err(SerializeError::from(e)),
    }
}

/// The JSON response of a serializable value: whatever the encoding yields,
/// an answer is a JSON response carrying some bytes.
pub fn as_response<T: serde::Serialize>(value: &T) -> (r: Result<Response, SerializeError>)
    ensures
        r matches Ok(response) ==> exists|bytes: Seq<u8>|
            response@ == #[trigger] json_response(bytes),
{
    response_from_encoded(to_json_bytes(value))
}

} // verus!
