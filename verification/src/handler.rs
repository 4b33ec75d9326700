//! The handler capability: anything that answers a request with a response
//! or an error.

use crate::into_response::SerializeError;
use crate::parse::ParsedRequest;
use crate::response::Response;
use vstd::prelude::*;
use vstd::string::StringExecFns;

verus! {

/// Why a handler did not answer.
#[derive(Debug)]
pub enum HandlerError {
    /// The handler's payload could not be encoded.
    SerializationError(SerializeError),
}

impl HandlerError {
    /// The error in words: a fixed opening, then the account of the failure
    /// that it carries.
    pub fn message(&self) -> (text: String)
        ensures
            exists|detail: Seq<char>| text@ == #[trigger] ("Serialization error "@ + detail),
    {
        match self {
            HandlerError::SerializationError(e) => {
                let detail = e.message();
                let text = "Serialization error ".to_owned().concat(detail.as_str());
                assert(text@ == "Serialization error "@ + detail@);
                text
            },
        }
    }
}

impl From<SerializeError> for HandlerError {
    fn from(e: SerializeError) -> (r: HandlerError) {
        HandlerError::SerializationError(e)
    }
}

impl vstd::std_specs::convert::FromSpecImpl<SerializeError> for HandlerError {
    open spec fn obeys_from_spec() -> bool {
        true
    }

    open spec fn from_spec(e: SerializeError) -> HandlerError {
        HandlerError::SerializationError(e)
    }
}

/// What a handler returns.
pub type HandlerResult = Result<Response, HandlerError>;

/// Something that can be asked to answer a request.
pub trait Handler: Send + Sync + 'static {
    /// The outcomes that this handler may give to a request. A handler that
    /// promises nothing admits every outcome.
    open spec fn admits(&self, request: &ParsedRequest, outcome: HandlerResult) -> bool {
        true
    }

    /// Answers the request.
    fn call(&self, request: &ParsedRequest) -> (outcome: HandlerResult)
        ensures
            self.admits(request, outcome),
    ;
}

/// A handler made of a function or closure that can be called with every
/// request.
pub struct FnHandler<F: Send + Sync + 'static + Fn(&ParsedRequest) -> HandlerResult> {
    f: F,
}

impl<F: Send + Sync + 'static + Fn(&ParsedRequest) -> HandlerResult> FnHandler<F> {
    #[verifier::type_invariant]
    spec fn callable(self) -> bool {
        forall|request: &ParsedRequest| call_requires(self.f, (request,))
    }

    /// The function that answers.
    pub closed spec fn function(self) -> F {
        self.f
    }

    /// Makes a handler of `f`.
    pub fn new(f: F) -> (handler: FnHandler<F>)
        requires
            forall|request: &ParsedRequest| call_requires(f, (request,)),
        ensures
            handler.function() == f,
    {
        FnHandler { f }
    }
}

impl<F: Send + Sync + 'static + Fn(&ParsedRequest) -> HandlerResult> Handler for FnHandler<F> {
    /// The outcomes that the function may return for the request.
    open spec fn admits(&self, request: &ParsedRequest, outcome: HandlerResult) -> bool {
        call_ensures(self.function(), (request,), outcome)
    }

    fn call(&self, request: &ParsedRequest) -> (outcome: HandlerResult) {
        proof {
            use_type_invariant(self);
        }
        (self.f)(request)
    }
}

/// A handler made of a function admits exactly the outcomes that the
/// function may return.
pub proof fn lemma_fn_handler_admits<F: Send + Sync + 'static + Fn(&ParsedRequest) -> HandlerResult>(
    handler: FnHandler<F>,
    request: &ParsedRequest,
    outcome: HandlerResult,
)
    ensures
        handler.admits(request, outcome) == call_ensures(handler.function(), (request,), outcome),
{
}

/// The `HandlerResult` of a serialization attempt: the response, or the
/// failure as a handler error.
pub fn handler_result(r: Result<Response, SerializeError>) -> (outcome: HandlerResult)
    ensures
        match r {
            Ok(response) => outcome == Ok::<Response, HandlerError>(response),
            Err(e) => outcome == Err::<Response, HandlerError>(
                HandlerError::SerializationError(e),
            ),
        },
{
    match r {
        Ok(response) => Ok(response),
        Err(e) => Err(HandlerError::from(e)),
    }
}

} // verus!
