//! Why a noninteractive request could not be answered.
//!
//! A request names an operation and carries that operation's fields; a
//! response is the whole envelope. What fails is said three ways: the code
//! a caller matches on, the sentence a person reads, and the status the
//! process leaves with.

use vstd::prelude::*;

use crate::domain::{Rejected, StoreError};

verus! {

/// Why a request could not be answered.
#[derive(Clone, Debug, PartialEq, Eq)]
pub struct Error {
    pub code: String,
    pub message: String,
    pub exit_code: u8,
}

/// An error with the code, status and sentence given.
pub open spec fn error_of(e: Error, code: Seq<char>, exit_code: u8, message: Seq<char>) -> bool {
    e.code@ == code && e.exit_code == exit_code && e.message@ == message
}

impl Error {
    fn new(code: &str, exit_code: u8, message: String) -> (e: Error)
        ensures
            error_of(e, code@, exit_code, message@),
    {
        Error { code: code.to_owned(), message, exit_code }
    }

    /// The request is not a request: no operation, an operation nobody
    /// has, a field nobody has, or a value of the wrong kind.
    pub fn invalid_request(message: String) -> (e: Error)
        ensures
            error_of(e, "invalid_request"@, 2, message@),
    {
        Error::new("invalid_request", 2, message)
    }

    /// The right shape saying something that cannot be meant: a date that
    /// is not a date, an id twice, a position past the end.
    pub fn invalid_argument(message: String) -> (e: Error)
        ensures
            error_of(e, "invalid_argument"@, 2, message@),
    {
        Error::new("invalid_argument", 2, message)
    }

    /// Deleting wants a confirmation and the request did not give one.
    pub fn confirmation_required(message: String) -> (e: Error)
        ensures
            error_of(e, "confirmation_required"@, 2, message@),
    {
        Error::new("confirmation_required", 2, message)
    }

    pub fn not_found(message: String) -> (e: Error)
        ensures
            error_of(e, "not_found"@, 3, message@),
    {
        Error::new("not_found", 3, message)
    }

    /// A rule of the domain, in the domain's own words.
    pub fn rejected(rejected: Rejected) -> (e: Error)
        ensures
            error_of(e, "rejected"@, 4, rejected.0@),
    {
        Error::new("rejected", 4, rejected.0)
    }

    pub fn conflict(message: String) -> (e: Error)
        ensures
            error_of(e, "conflict"@, 5, message@),
    {
        Error::new("conflict", 5, message)
    }

    /// A failure of storage: another window first is a conflict, anything
    /// else is storage's own error.
    pub fn store(error: StoreError) -> (e: Error)
        ensures
            match error {
                StoreError::Conflict => error_of(e, "conflict"@, 5, "another window changed the same thing"@),
                StoreError::Other(m) => error_of(e, "storage_error"@, 1, m@),
            },
    {
        let message = error.message();
        match error {
            StoreError::Conflict => Error::conflict(message),
            StoreError::Other(_) => Error::new("storage_error", 1, message),
        }
    }
}

} // verus!
