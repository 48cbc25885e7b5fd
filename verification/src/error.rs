//! The error type of the library: a kind that callers match on and a
//! message for people.
use vstd::prelude::*;

verus! {

/// What went wrong, in the categories the command line reports.
#[derive(Clone, Copy, Debug, PartialEq, Eq, Structural)]
pub enum ErrorKind {
    /// The caller passed an argument that is not acceptable.
    InvalidInput,
    /// Data read from a disk or a service is malformed.
    InvalidData,
    /// Something that was looked for does not exist.
    NotFound,
    /// The operation is not available for this boot disk or platform.
    Unsupported,
    /// The destination already exists.
    AlreadyExists,
    /// Data ended before all of it could be read.
    UnexpectedEof,
    /// The request conflicts with the current state.
    Other,
}

/// An error of the library.
#[derive(Debug)]
pub struct EliError {
    pub kind: ErrorKind,
    pub message: String,
}

impl EliError {
    pub fn new(kind: ErrorKind, message: String) -> (e: EliError)
        ensures
            e.kind == kind,
            e.message@ == message@,
    {
        EliError { kind, message }
    }

    pub fn kind(&self) -> (k: ErrorKind)
        ensures
            k == self.kind,
    {
        self.kind
    }

    /// The message, as `Display` would print it.
    pub fn to_string(&self) -> (s: String)
        ensures
            s@ == self.message@,
    {
        self.message.clone()
    }
}

} // verus!
