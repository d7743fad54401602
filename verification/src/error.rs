//! The kinds of errors.

use vstd::prelude::*;

verus! {

/// What kind of error an operation ended in.
#[derive(Debug, Clone, Copy, PartialEq, Eq, Structural)]
pub enum ErrorKind {
    /// A file or a directory is missing.
    NotFound,
    /// An argument cannot be used.
    InvalidInput,
    /// The contents of a file are not what they should be.
    InvalidData,
    /// A connection ended too early.
    UnexpectedEof,
    /// Anything else.
    Other,
}

} // verus!
