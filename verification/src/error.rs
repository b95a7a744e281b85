//! The errors of this crate: what went wrong, and a sentence about it.

use vstd::prelude::*;

verus! {

/// What went wrong.
#[derive(Debug, Clone, Copy, PartialEq, Eq, Structural)]
pub enum ErrorKind {
    /// A bundle or a ledger could not be read.
    ConfigReading,
    /// A bundle holds something that is not what it should be.
    ConfigParsing,
    /// A connection could not be made, or the other end is gone.
    ConnectionError,
    /// JSON could not be read.
    InputOutput,
    /// A host has no addresses.
    NotFound,
    /// An argument is not acceptable.
    GeneralError,
}

/// An error: its kind, and a message for people.
#[derive(Debug, Clone)]
pub struct MailError {
    pub kind: ErrorKind,
    pub message: String,
}

impl MailError {
    /// Whether this error has that kind and that message.
    pub open spec fn says(self, kind: ErrorKind, message: Seq<char>) -> bool {
        self.kind == kind && self.message@ == message
    }

    /// The error of that kind with that message.
    pub fn new(kind: ErrorKind, message: &str) -> (r: Self)
        ensures
            r.says(kind, message@),
            r.kind == kind,
            r.message@ == message@,
    {
        MailError { kind, message: message.to_owned() }
    }
}

/// An error says one thing alone: its own kind, and its own message to the last
/// character.
pub proof fn law_an_error_says_its_kind_and_its_message(
    e: MailError,
    kind: ErrorKind,
    message: Seq<char>,
)
    ensures
        e.says(kind, message) <==> e.kind == kind && e.message@ == message,
{
}

} // verus!
