//! The closed set of request methods and how a token of the protocol line
//! names one of them.

use http_types::Method as WireMethod;
use std::str::FromStr;
use vstd::prelude::*;

verus! {

/// A standard HTTP request method.
#[derive(Clone, Copy, Debug, PartialEq, Eq, Hash, Structural)]
pub enum Method {
    Get,
    Head,
    Post,
    Put,
    Delete,
    Connect,
    Options,
    Trace,
    Patch,
}

/// The upper-case form of an ASCII letter; any other character is itself.
pub open spec fn ascii_upper(c: char) -> char {
    if 'a' <= c && c <= 'z' {
        ((c as u32) - 32) as char
    } else {
        c
    }
}

/// `s` with each ASCII letter in upper case.
pub open spec fn ascii_uppercase(s: Seq<char>) -> Seq<char> {
    s.map_values(|c: char| ascii_upper(c))
}

/// The method that a token names: the token is compared in upper case with
/// the nine method names, so that letter case does not matter.
pub open spec fn method_named(token: Seq<char>) -> Option<Method> {
    let name = ascii_uppercase(token);
    if name == "GET"@ {
        Some(Method::Get)
    } else if name == "HEAD"@ {
        Some(Method::Head)
    } else if name == "POST"@ {
        Some(Method::Post)
    } else if name == "PUT"@ {
        Some(Method::Put)
    } else if name == "DELETE"@ {
        Some(Method::Delete)
    } else if name == "CONNECT"@ {
        Some(Method::Connect)
    } else if name == "OPTIONS"@ {
        Some(Method::Options)
    } else if name == "TRACE"@ {
        Some(Method::Trace)
    } else if name == "PATCH"@ {
        Some(Method::Patch)
    } else {
        None
    }
}

/// Looks a token up with `http_types::Method::from_str`, which puts the token
/// in ASCII upper case and matches it against its nine method names; any
/// other token is an error there and `None` here.
#[verifier::external_body]
pub(crate) fn method_from_str(token: &str) -> (method: Option<Method>)
    ensures
        method == method_named(token@),
{
    match WireMethod::from_str(token) {
        Ok(WireMethod::Get) => Some(Method::Get),
        Ok(WireMethod::Head) => Some(Method::Head),
        Ok(WireMethod::Post) => Some(Method::Post),
        Ok(WireMethod::Put) => Some(Method::Put),
        Ok(WireMethod::Delete) => Some(Method::Delete),
        Ok(WireMethod::Connect) => Some(Method::Connect),
        Ok(WireMethod::Options) => Some(Method::Options),
        Ok(WireMethod::Trace) => Some(Method::Trace),
        Ok(WireMethod::Patch) => Some(Method::Patch),
        Err(_) => None,
    }
}

} // verus!
