//! The error taxonomy: transport failures, malformed responses, and an
//! association target that never appeared within the retry budget.

use vstd::prelude::*;
use vstd::string::StringExecFns;

verus! {

/// Why a device operation or the association search failed.
#[derive(Debug)]
pub enum ClientError {
    /// The device could not be reached.
    Transport(String),
    /// The device answered with something of an unexpected shape.
    Protocol(String),
    /// No scanned network matched the target within the attempt budget.
    NotFound,
}

impl ClientError {
    /// A human-readable description, for the caller to print.
    pub fn message(&self) -> (r: String)
        ensures
            match self {
                ClientError::Transport(s) => r@ == "transport error: "@ + s@,
                ClientError::Protocol(s) => r@ == "protocol error: "@ + s@,
                ClientError::NotFound => r@ == "association target not found"@,
            },
    {
        match self {
            ClientError::Transport(s) => {
                let mut r = String::from_str("transport error: ");
                r.append(s.as_str());
                r
            },
            ClientError::Protocol(s) => {
                let mut r = String::from_str("protocol error: ");
                r.append(s.as_str());
                r
            },
            ClientError::NotFound => String::from_str("association target not found"),
        }
    }

    /// An equal copy, for handing out an error that stays stored elsewhere.
    pub fn duplicate(&self) -> (r: ClientError)
        ensures
            r == *self,
    {
        match self {
            ClientError::Transport(s) => ClientError::Transport(s.clone()),
            ClientError::Protocol(s) => ClientError::Protocol(s.clone()),
            ClientError::NotFound => ClientError::NotFound,
        }
    }
}

} // verus!
