//! Failures that stop an operation before or while it runs.
use vstd::prelude::*;

verus! {

/// Kind of an operational failure.
#[derive(Debug, Clone, Copy, PartialEq, Eq, Structural)]
pub enum ProcessErrorKind {
    /// A path that the operation reads does not exist, or a directory holds no chunk.
    NotFound,
    /// An option is unset or out of range, or a path has the wrong type.
    InvalidInput,
    /// A chunk directory holds a file whose name is not a chunk ordinal.
    CorruptDirectory,
}

/// An operational failure: the operation could not run to its end.
#[derive(Debug, Clone)]
pub struct ProcessError {
    pub kind: ProcessErrorKind,
    pub message: String,
}

impl ProcessError {
    /// A failure of the given kind with the given message.
    pub fn new(kind: ProcessErrorKind, message: &str) -> (r: Self)
        ensures
            r.kind == kind,
            r.message@ == message@,
    {
        ProcessError { kind, message: String::from_str(message) }
    }
}

} // verus!
