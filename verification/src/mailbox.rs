//! Actor mailboxes: why a message could not be sent.

use vstd::prelude::*;

verus! {

/// A send to an actor's bounded mailbox failed.
#[derive(Clone, Copy, Debug, PartialEq, Eq)]
pub enum SendError {
    /// The actor stopped.
    Closed,
    /// The mailbox is full (backpressure).
    Full,
}

/// The message of a send error.
pub open spec fn send_error_message(e: SendError) -> Seq<char> {
    match e {
        SendError::Closed => "mailbox closed (actor stopped)"@,
        SendError::Full => "mailbox full (backpressure)"@,
    }
}

impl SendError {
    pub fn message(self) -> (m: String)
        ensures
            m@ == send_error_message(self),
    {
        match self {
            SendError::Closed => "mailbox closed (actor stopped)".to_owned(),
            SendError::Full => "mailbox full (backpressure)".to_owned(),
        }
    }
}

} // verus!
