//! Errors of the library.

use vstd::prelude::*;

verus! {

/// The kinds of input and output failure that the library itself reports.
#[derive(Debug, Clone, Copy, PartialEq, Eq, Structural)]
pub enum IoErrorKind {
    UnexpectedEof,
    NotConnected,
    TimedOut,
    Interrupted,
    InvalidInput,
    Other,
}

/// An input or output failure: its kind and what is said about it.
#[derive(Debug)]
pub struct IoError {
    pub kind: IoErrorKind,
    pub message: String,
}

impl IoError {
    /// Makes an error of the given kind.
    pub fn new(kind: IoErrorKind, message: &str) -> (r: IoError)
        ensures
            r.kind == kind,
            r.message@ == message@,
    {
        IoError { kind, message: message.to_owned() }
    }

    /// Whether the error is the end of the stream within a message.
    pub open spec fn is_unexpected_eof(self) -> bool {
        self.kind == IoErrorKind::UnexpectedEof && self.message@ == "unexpected eof"@
    }

    /// The stream ended within a message.
    pub fn unexpected_eof() -> (r: IoError)
        ensures
            r.is_unexpected_eof(),
    {
        IoError::new(IoErrorKind::UnexpectedEof, "unexpected eof")
    }
}

impl Clone for IoError {
    fn clone(&self) -> (r: Self)
        ensures
            r == *self,
    {
        IoError { kind: self.kind, message: self.message.clone() }
    }
}

/// An error about which nothing more is known.
#[derive(Debug)]
pub struct GenericError;

impl GenericError {
    /// What the error says.
    pub fn text(&self) -> (r: &'static str)
        ensures
            r@ == "Generic hyper-util error"@,
    {
        "Generic hyper-util error"
    }
}

} // verus!
