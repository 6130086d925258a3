//! The errors of the library.

use vstd::prelude::*;

verus! {

/// What went wrong.
#[derive(Clone, Copy, Debug, PartialEq, Eq, Structural)]
pub enum LinderaErrorKind {
    /// Stored data could not be decoded.
    Deserialize,
}

/// An error: its kind, and the text of its cause.
#[derive(Debug)]
pub struct LinderaError {
    pub kind: LinderaErrorKind,
    pub message: String,
}

/// The result of an operation that can fail.
pub type LinderaResult<T> = Result<T, LinderaError>;

/// Why a lookup that checks the dictionary first was not made.
#[derive(Clone, Copy, Debug, PartialEq, Eq, Structural)]
pub enum LookupError {
    /// The automaton could not be decoded.
    Undecodable,
    /// The automaton is not the one that is built for its patterns.
    Unsound,
    /// A value found by the search stands for entries that are not stored.
    OutOfRange,
}

impl LinderaErrorKind {
    /// An error of this kind with the text of its cause.
    pub fn with_error(self, message: String) -> (r: LinderaError)
        ensures
            r.kind == self,
            r.message == message,
    {
        LinderaError { kind: self, message }
    }
}

} // verus!
