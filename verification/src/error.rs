//! Failures that the store, the server and the client report.

use vstd::prelude::*;
use vstd::string::*;

verus! {

/// Everything that can go wrong while serving or issuing a request.
#[derive(Debug, PartialEq, Eq)]
pub enum Error {
    /// A removal named a key that the store does not hold.
    KeyNotFound,
    /// Reading or writing a file or a socket failed.
    Io(String),
    /// A record of the log or of the wire could not be encoded or decoded.
    Serde(String),
    /// The peer answered with a response of the wrong shape.
    Protocol(String),
    /// The engine asked for differs from the one the directory was made with.
    EngineMismatch { requested: String, stored: String },
    /// The server reported a failure of its own.
    Server(String),
}

impl Error {
    /// The text shown to a person for this failure.
    pub open spec fn message_spec(self) -> Seq<char> {
        match self {
            Error::KeyNotFound => "Key not found"@,
            Error::Io(text) => text@,
            Error::Serde(text) => text@,
            Error::Protocol(text) => text@,
            Error::EngineMismatch { requested, stored } => "Inconsistent engine: "@ + requested@
                + " "@ + stored@,
            Error::Server(text) => text@,
        }
    }

    /// Renders the failure as the line that is logged, printed or sent back.
    pub fn message(&self) -> (text: String)
        ensures
            text@ == self.message_spec(),
    {
        match self {
            Error::KeyNotFound => String::from_str("Key not found"),
            Error::Io(text) => text.clone(),
            Error::Serde(text) => text.clone(),
            Error::Protocol(text) => text.clone(),
            Error::EngineMismatch { requested, stored } => {
                let mut line = String::from_str("Inconsistent engine: ");
                line.append(requested.as_str());
                line.append(" ");
                line.append(stored.as_str());
                line
            },
            Error::Server(text) => text.clone(),
        }
    }
}

} // verus!
