//! Errors of the byte oriented parts of the crate.

use vstd::prelude::*;

verus! {

/// The category of an [`Error`].
#[derive(Debug, Clone, Copy, PartialEq, Eq, Structural)]
pub enum ErrorKind {
    /// The data does not follow the format it should have.
    InvalidData,
    /// A parameter is not acceptable.
    InvalidInput,
    /// The requested thing does not exist.
    NotFound,
    /// The requested thing must not be accessed.
    PermissionDenied,
    /// The other side closed the channel.
    BrokenPipe,
    /// The other side took too long.
    TimedOut,
    /// The data ended too early.
    UnexpectedEof,
    /// Anything else.
    Other,
}

/// An error with its category and a short description.
#[derive(Debug, Clone, Copy)]
pub struct Error {
    pub kind: ErrorKind,
    pub message: &'static str,
}

impl Error {
    /// Creates an error.
    pub fn new(kind: ErrorKind, message: &'static str) -> (err: Self)
        ensures
            err == (Error { kind, message }),
    {
        Error { kind, message }
    }

    /// The category of the error.
    pub fn kind(&self) -> (kind: ErrorKind)
        ensures
            kind == self.kind,
    {
        self.kind
    }
}

/// A result whose error is an [`Error`].
pub type Result<T> = core::result::Result<T, Error>;

} // verus!
