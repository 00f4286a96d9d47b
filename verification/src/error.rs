//! The library's error type.

use crate::text::concat;
use vstd::prelude::*;

verus! {

/// What the library keeps of a failed I/O operation: whether the failure
/// was a missing file or directory, and the failure's text.
#[derive(Clone, Debug, PartialEq, Eq)]
pub struct IoFailure {
    pub not_found: bool,
    pub message: String,
}

/// Errors of the control plane.
#[derive(Debug)]
pub enum FlarenvError {
    AlreadyExists(String),
    InvalidInput(String),
    Io(IoFailure),
    NotFound(String),
    PreconditionFailed(String),
    Storage(String),
    Execution(String),
}

/// Results of the control plane.
pub type Result<T> = core::result::Result<T, FlarenvError>;

/// `r` failed because something already exists, with message `msg`.
pub open spec fn fails_already_exists<T>(r: Result<T>, msg: Seq<char>) -> bool {
    r matches Err(FlarenvError::AlreadyExists(m)) && m@ == msg
}

/// `r` failed because something was not found, with message `msg`.
pub open spec fn fails_not_found<T>(r: Result<T>, msg: Seq<char>) -> bool {
    r matches Err(FlarenvError::NotFound(m)) && m@ == msg
}

/// `r` failed on a precondition, with message `msg`.
pub open spec fn fails_precondition<T>(r: Result<T>, msg: Seq<char>) -> bool {
    r matches Err(FlarenvError::PreconditionFailed(m)) && m@ == msg
}

/// `r` failed on invalid input, with message `msg`.
pub open spec fn fails_invalid_input<T>(r: Result<T>, msg: Seq<char>) -> bool {
    r matches Err(FlarenvError::InvalidInput(m)) && m@ == msg
}

/// `r` failed in storage, with message `msg`.
pub open spec fn fails_storage<T>(r: Result<T>, msg: Seq<char>) -> bool {
    r matches Err(FlarenvError::Storage(m)) && m@ == msg
}

/// The text a failure reads as: a prefix naming its kind, then its message.
pub open spec fn error_text(e: FlarenvError) -> Seq<char> {
    match e {
        FlarenvError::AlreadyExists(m) => "already exists: "@ + m@,
        FlarenvError::InvalidInput(m) => "invalid input: "@ + m@,
        FlarenvError::Io(f) => "io error: "@ + f.message@,
        FlarenvError::NotFound(m) => "not found: "@ + m@,
        FlarenvError::PreconditionFailed(m) => "precondition failed: "@ + m@,
        FlarenvError::Storage(m) => "storage error: "@ + m@,
        FlarenvError::Execution(m) => "execution error: "@ + m@,
    }
}

impl FlarenvError {
    /// The text of the error, as its `Display` would write it.
    pub fn describe(&self) -> (r: String)
        ensures
            r@ == error_text(*self),
    {
        match self {
            FlarenvError::AlreadyExists(m) => concat("already exists: ", m.as_str()),
            FlarenvError::InvalidInput(m) => concat("invalid input: ", m.as_str()),
            FlarenvError::Io(f) => concat("io error: ", f.message.as_str()),
            FlarenvError::NotFound(m) => concat("not found: ", m.as_str()),
            FlarenvError::PreconditionFailed(m) => concat("precondition failed: ", m.as_str()),
            FlarenvError::Storage(m) => concat("storage error: ", m.as_str()),
            FlarenvError::Execution(m) => concat("execution error: ", m.as_str()),
        }
    }
}

} // verus!
