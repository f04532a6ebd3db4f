//! The HTTP methods the server understands.

use vstd::prelude::*;
use crate::text::str_eq;

verus! {

/// An HTTP request method. Only `GET` and `POST` are supported; any other
/// token on the wire is a parse failure.
#[derive(Debug, Clone, Copy, PartialEq, Eq, Structural)]
pub enum Method {
    GET,
    POST,
}

/// The method named by a token: exactly `GET` or `POST`, nothing else.
pub open spec fn spec_method_token(s: Seq<char>) -> Option<Method> {
    if s == "GET"@ {
        Some(Method::GET)
    } else if s == "POST"@ {
        Some(Method::POST)
    } else {
        None
    }
}

impl Method {
    /// Reads a method token; unsupported tokens yield nothing.
    pub fn from_string(string: &str) -> (m: Option<Method>)
        ensures
            m == spec_method_token(string@),
    {
        if str_eq(string, "GET") {
            Some(Method::GET)
        } else if str_eq(string, "POST") {
            proof {
                assert(string@ != "GET"@);
            }
            Some(Method::POST)
        } else {
            None
        }
    }

    /// The wire spelling of the method.
    pub fn to_string(&self) -> (s: String)
        ensures
            *self == Method::GET ==> s@ == "GET"@,
            *self == Method::POST ==> s@ == "POST"@,
    {
        match self {
            Method::GET => "GET".to_owned(),
            Method::POST => "POST".to_owned(),
        }
    }
}

} // verus!
