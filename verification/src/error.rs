//! Errors of the runtime.

use vstd::prelude::*;

verus! {

/// What went wrong.
#[derive(Debug, PartialEq, Eq)]
pub enum Error {
    /// An operation failed.
    Message(String),
    /// A limit of the system was exceeded.
    LimitExceeded(String),
}

/// What an `Error` stands for.
pub enum ErrorV {
    Message(Seq<char>),
    LimitExceeded(Seq<char>),
}

impl View for Error {
    type V = ErrorV;

    open spec fn view(&self) -> ErrorV {
        match *self {
            Error::Message(s) => ErrorV::Message(s@),
            Error::LimitExceeded(s) => ErrorV::LimitExceeded(s@),
        }
    }
}

impl Error {
    /// The text of an error.
    pub open spec fn describes(e: ErrorV) -> Seq<char> {
        match e {
            ErrorV::Message(s) => s,
            ErrorV::LimitExceeded(s) => s,
        }
    }

    /// The text of the error.
    pub fn to_string(&self) -> (res: String)
        ensures
            res@ == Error::describes(self@),
    {
        match self {
            Error::Message(s) => s.clone(),
            Error::LimitExceeded(s) => s.clone(),
        }
    }
}

} // verus!
