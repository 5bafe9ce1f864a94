//! The proxy's failures, and the JSON message that a failure is answered with.

use vstd::prelude::*;
use warp::http::header::InvalidHeaderValue;
use crate::headers::invalid_header_value_text;

verus! {

/// A failure while forwarding a request, each kind with the text of the
/// error it comes from.
#[derive(Debug)]
pub enum Error {
    Http(String),
    Hyper(String),
    InvalidHeaderValue(String),
    Io(String),
    Reqwest(String),
    UrlParse(String),
}

impl Error {
    /// The text that describes the failure.
    pub open spec fn spec_message(&self) -> Seq<char> {
        match self {
            Error::Http(m) => m@,
            Error::Hyper(m) => m@,
            Error::InvalidHeaderValue(m) => m@,
            Error::Io(m) => m@,
            Error::Reqwest(m) => m@,
            Error::UrlParse(m) => m@,
        }
    }

    /// The text that describes the failure.
    pub fn message(&self) -> (text: String)
        ensures
            text@ == self.spec_message(),
    {
        match self {
            Error::Http(m) => m.clone(),
            Error::Hyper(m) => m.clone(),
            Error::InvalidHeaderValue(m) => m.clone(),
            Error::Io(m) => m.clone(),
            Error::Reqwest(m) => m.clone(),
            Error::UrlParse(m) => m.clone(),
        }
    }

    /// The failure of a header value that holds a byte no header may hold.
    pub fn from_invalid_header_value(error: InvalidHeaderValue) -> (e: Error)
        ensures
            e is InvalidHeaderValue,
            e.spec_message() == "failed to parse header value"@,
    {
        Error::InvalidHeaderValue(invalid_header_value_text(&error))
    }
}

/// The body of the answer to a failed request: a status code and a text.
pub struct ErrorMessage {
    pub code: u16,
    pub message: String,
}

/// The status code of the answer to a failed request.
pub open spec fn failure_status() -> u16 {
    500
}

/// The answer to a request that failed with `error`: status 500 (internal
/// server error), with the error's text.
pub fn error_reply(error: &Error) -> (reply: ErrorMessage)
    ensures
        reply.code == failure_status(),
        reply.message@ == error.spec_message(),
{
    ErrorMessage { code: 500, message: error.message() }
}

} // verus!
