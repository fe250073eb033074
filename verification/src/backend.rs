//! Failures of the platform layers around the library.
use vstd::prelude::*;

verus! {

#[derive(Debug, Clone, Copy, PartialEq, Eq, Structural)]
pub enum BackendErrorKind {
    InvalidInput,
    InvalidData,
    BrokenPipe,
    NotConnected,
    NotFound,
    TimedOut,
    WouldBlock,
    Other,
}

/// Why a backend could not do what it was asked.
#[derive(Debug, Clone, PartialEq, Eq)]
pub struct BackendError {
    pub kind: BackendErrorKind,
    pub message: String,
}

impl BackendError {
    /// The failure of one kind with one text.
    pub open spec fn says(self, kind: BackendErrorKind, message: Seq<char>) -> bool {
        self.kind == kind && self.message@ == message
    }

    pub fn new(kind: BackendErrorKind, message: &str) -> (error: BackendError)
        ensures
            error.says(kind, message@),
    {
        BackendError { kind, message: message.to_string() }
    }
}

/// A failure says one thing: its kind and its text.
pub proof fn law_failures_say_one_thing(
    error: BackendError,
    kind: BackendErrorKind,
    message: Seq<char>,
    other_kind: BackendErrorKind,
    other: Seq<char>,
)
    ensures
        error.says(error.kind, error.message@),
        error.says(kind, message) && error.says(other_kind, other) ==> kind == other_kind && message
            == other,
{
}

} // verus!
