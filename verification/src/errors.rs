//! Error taxonomy of the fetch client and the task manager.

use vstd::prelude::*;
use vstd::string::*;

verus! {

/// What can go wrong in the core: a challenge answer from the remote, a
/// transport fault, a persistence failure, or an unknown task id.
#[derive(Debug)]
pub enum CoreError {
    /// The remote answered HTTP 403 or 503: an anti-automation challenge
    /// that the caller must resolve out-of-band, then resubmit cookies.
    ChallengeRequired,
    /// A network, timeout or connection fault, with the transport's message.
    Transport(String),
    /// A persistence-layer failure, with the store's message.
    Store(String),
    /// An operation referenced an unknown task id.
    TaskNotFound,
    /// A synthesized header held a character no header value may hold.
    InvalidHeader,
}

impl CoreError {
    pub open spec fn is_challenge(&self) -> bool {
        self is ChallengeRequired
    }

    /// A printable description; the challenge case keeps the marker string
    /// that callers match on.
    pub fn message(&self) -> (r: String)
        ensures
            self is ChallengeRequired ==> r@ == "CLOUDFLARE_CHALLENGE"@,
            self is TaskNotFound ==> r@ == "task not found"@,
            self is InvalidHeader ==> r@ == "invalid header value"@,
            self matches CoreError::Transport(m) ==> r@ == m@,
            self matches CoreError::Store(m) ==> r@ == m@,
    {
        match self {
            CoreError::ChallengeRequired => String::from_str("CLOUDFLARE_CHALLENGE"),
            CoreError::Transport(m) => m.clone(),
            CoreError::Store(m) => m.clone(),
            CoreError::TaskNotFound => String::from_str("task not found"),
            CoreError::InvalidHeader => String::from_str("invalid header value"),
        }
    }
}

} // verus!
