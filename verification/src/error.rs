//! The failures that the library reports.

use vstd::prelude::*;
use vstd::string::StringExecFns;

verus! {

/// A failure that ends a command.
#[derive(Debug, Clone, Copy, PartialEq, Eq, Structural)]
pub enum WsError {
    /// The picker named a row that stands for nothing.
    InvalidSelection,
    /// The multiplexer could not say which session is current.
    NoCurrentSession,
}

/// The words that go with a failure.
pub open spec fn message_of(error: WsError) -> Seq<char> {
    match error {
        WsError::InvalidSelection => "Invalid selection"@,
        WsError::NoCurrentSession => "Failed to get current session"@,
    }
}

impl WsError {
    /// The words that go with this failure.
    pub fn message(&self) -> (words: String)
        ensures
            words@ == message_of(*self),
    {
        match self {
            WsError::InvalidSelection => String::from_str("Invalid selection"),
            WsError::NoCurrentSession => String::from_str("Failed to get current session"),
        }
    }
}

} // verus!
