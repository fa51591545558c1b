//! The error mapper: each internal failure kind becomes a wire response of a
//! status code and a message for the `{"error": ...}` body.
//!
//! Nothing beyond the constraint-violation text or the underlying store
//! message is ever exposed.

use vstd::prelude::*;

verus! {

/// The failure taxonomy of the service.
#[derive(Debug)]
pub enum Failure {
    /// The store's uniqueness constraint on `nick` was violated.
    DuplicateNick { message: String },
    /// The rate limiter refused the client.
    TooManyRequests,
    /// The admin guard refused the credential.
    Unauthorized,
    /// Any other storage failure, surfaced as-is.
    Store { message: String },
}

/// A wire response: HTTP status plus the message for the JSON body.
pub struct ApiError {
    pub status: u16,
    pub error: String,
}

impl Failure {
    /// The status each failure kind maps to.
    pub open spec fn spec_status(&self) -> u16 {
        match self {
            Failure::DuplicateNick { .. } => 400,
            Failure::TooManyRequests => 429,
            Failure::Unauthorized => 401,
            Failure::Store { .. } => 500,
        }
    }

    /// The body message each failure kind maps to: the carried text for
    /// store failures, a fixed message for rate-limit refusals, nothing for
    /// an unauthorized request.
    pub open spec fn spec_message(&self) -> Seq<char> {
        match self {
            Failure::DuplicateNick { message } => message@,
            Failure::TooManyRequests => "too many requests"@,
            Failure::Unauthorized => Seq::<char>::empty(),
            Failure::Store { message } => message@,
        }
    }

    /// Maps the failure to its wire response, exactly per the tables above.
    pub fn into_response(self) -> (r: ApiError)
        ensures
            r.status == self.spec_status(),
            r.error@ == self.spec_message(),
    {
        match self {
            Failure::DuplicateNick { message } => ApiError { status: 400, error: message },
            Failure::TooManyRequests => ApiError {
                status: 429,
                error: "too many requests".to_owned(),
            },
            Failure::Unauthorized => ApiError { status: 401, error: String::new() },
            Failure::Store { message } => ApiError { status: 500, error: message },
        }
    }
}

} // verus!
