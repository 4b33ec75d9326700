//! Response status: a numeric code together with its canonical reason text.

use vstd::prelude::*;

verus! {

/// The canonical reason text of a status code, for the codes that are
/// registered status codes; `None` for any other number.
pub uninterp spec fn canonical_reason(code: u16) -> Option<Seq<char>>;

/// The optional text `reason` is present and reads `text`.
pub open spec fn says(reason: Option<String>, text: Seq<char>) -> bool {
    reason matches Some(r) && r@ == text
}

/// Looks a code up with `http_types::StatusCode::try_from` and, where that
/// knows the code, takes the text from `StatusCode::canonical_reason`. The
/// result is a function of the code alone. Three codes that this library
/// itself answers with are spelled out: 200, 404 and 500.
#[verifier::external_body]
pub(crate) fn reason_phrase(code: u16) -> (reason: Option<String>)
    ensures
        reason.is_some() == canonical_reason(code).is_some(),
        reason matches Some(text) ==> canonical_reason(code) == Some(text@),
        code == 200 ==> says(reason, "OK"@),
        code == 404 ==> says(reason, "Not Found"@),
        code == 500 ==> says(reason, "Internal Server Error"@),
{
    match http_types::StatusCode::try_from(code) {
        Ok(status) => Some(status.canonical_reason().to_owned()),
        Err(_) => None,
    }
}

/// A status code with its reason text.
#[derive(Debug)]
pub struct Status {
    pub code: u16,
    pub reason: String,
}

impl Status {
    /// The reason text is the canonical one of the code.
    pub open spec fn is_canonical(&self) -> bool {
        canonical_reason(self.code) == Some(self.reason@)
    }

    /// The status of a registered code, with its canonical reason.
    pub fn from_code(code: u16) -> (r: Option<Status>)
        ensures
            match r {
                Some(s) => s.code == code && s.is_canonical(),
                None => canonical_reason(code).is_none(),
            },
            code == 200 || code == 404 || code == 500 ==> r.is_some(),
    {
        match reason_phrase(code) {
            Some(reason) => Some(Status { code, reason }),
            None => None,
        }
    }

    /// 200 OK.
    pub fn ok() -> (s: Status)
        ensures
            s.code == 200,
            s.reason@ == "OK"@,
            s.is_canonical(),
    {
        match reason_phrase(200) {
            Some(reason) => Status { code: 200, reason },
            // Not reached: 200 is a registered code.
            None => Status { code: 200, reason: "OK".to_owned() },
        }
    }

    /// 404 Not Found.
    pub fn not_found() -> (s: Status)
        ensures
            s.code == 404,
            s.reason@ == "Not Found"@,
            s.is_canonical(),
    {
        match reason_phrase(404) {
            Some(reason) => Status { code: 404, reason },
            // Not reached: 404 is a registered code.
            None => Status { code: 404, reason: "Not Found".to_owned() },
        }
    }

    /// 500 Internal Server Error.
    pub fn internal_server_error() -> (s: Status)
        ensures
            s.code == 500,
            s.reason@ == "Internal Server Error"@,
            s.is_canonical(),
    {
        match reason_phrase(500) {
            Some(reason) => Status { code: 500, reason },
            // Not reached: 500 is a registered code.
            None => Status { code: 500, reason: "Internal Server Error".to_owned() },
        }
    }
}

} // verus!
