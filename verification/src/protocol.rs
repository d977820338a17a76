//! The records that travel between client and server, and how an outcome of
//! the engine becomes a response and a response an outcome for the caller.

use vstd::prelude::*;
use vstd::string::*;

use crate::error::Error;

verus! {

/// What a client asks of the server.
#[derive(Debug, PartialEq, Eq)]
pub enum Request {
    SetKey { key: String, value: String },
    Rm { key: String },
    Get { key: String },
}

/// A request as the contracts speak of it.
pub enum RequestView {
    SetKey { key: Seq<char>, value: Seq<char> },
    Rm { key: Seq<char> },
    Get { key: Seq<char> },
}

impl View for Request {
    type V = RequestView;

    open spec fn view(&self) -> RequestView {
        match self {
            Request::SetKey { key, value } => RequestView::SetKey { key: key@, value: value@ },
            Request::Rm { key } => RequestView::Rm { key: key@ },
            Request::Get { key } => RequestView::Get { key: key@ },
        }
    }
}

/// What the server answers: one response per request, in order.
#[derive(Debug, PartialEq, Eq)]
pub enum Response {
    Success(Option<String>),
    Failure(String),
}

/// A response as the contracts speak of it.
pub enum ResponseView {
    Success(Option<Seq<char>>),
    Failure(Seq<char>),
}

impl View for Response {
    type V = ResponseView;

    open spec fn view(&self) -> ResponseView {
        match self {
            Response::Success(Some(value)) => ResponseView::Success(Some(value@)),
            Response::Success(None) => ResponseView::Success(None),
            Response::Failure(text) => ResponseView::Failure(text@),
        }
    }
}

/// The response to a read: the value or its absence on success, the
/// failure's message otherwise.
pub open spec fn value_reply(outcome: Result<Option<String>, Error>) -> ResponseView {
    match outcome {
        Ok(Some(value)) => ResponseView::Success(Some(value@)),
        Ok(None) => ResponseView::Success(None),
        Err(e) => ResponseView::Failure(e.message_spec()),
    }
}

/// The response to a write: no value on success, the failure's message
/// otherwise.
pub open spec fn unit_reply(outcome: Result<(), Error>) -> ResponseView {
    match outcome {
        Ok(()) => ResponseView::Success(None),
        Err(e) => ResponseView::Failure(e.message_spec()),
    }
}

/// What a client tells its caller of a write that was answered by a value.
pub open spec fn unexpected_value() -> Seq<char> {
    "Unexpected value in the response to a write"@
}

impl Response {
    /// The response to a read that ended with `outcome`.
    pub fn from_value(outcome: Result<Option<String>, Error>) -> (response: Response)
        ensures
            response@ == value_reply(outcome),
    {
        match outcome {
            Ok(value) => Response::Success(value),
            Err(e) => Response::Failure(e.message()),
        }
    }

    /// The response to a write that ended with `outcome`.
    pub fn from_unit(outcome: Result<(), Error>) -> (response: Response)
        ensures
            response@ == unit_reply(outcome),
    {
        match outcome {
            Ok(()) => Response::Success(None),
            Err(e) => Response::Failure(e.message()),
        }
    }

    /// What a read returns to its caller for this response: the value or its
    /// absence, or the failure that the server reported.
    pub fn into_value(self) -> (outcome: Result<Option<String>, Error>)
        ensures
            match self {
                Response::Success(Some(value)) => outcome matches Ok(Some(v)) && v@ == value@,
                Response::Success(None) => outcome matches Ok(None),
                Response::Failure(text) => outcome matches Err(Error::Server(t)) && t@ == text@,
            },
    {
        match self {
            Response::Success(value) => Ok(value),
            Response::Failure(text) => Err(Error::Server(text)),
        }
    }

    /// What a write returns to its caller for this response: success when
    /// the server reported it without a value, a protocol failure when a
    /// value came with it, or the failure that the server reported.
    pub fn into_unit(self) -> (outcome: Result<(), Error>)
        ensures
            match self {
                Response::Success(Some(_)) => outcome matches Err(Error::Protocol(t)) && t@
                    == unexpected_value(),
                Response::Success(None) => outcome is Ok,
                Response::Failure(text) => outcome matches Err(Error::Server(t)) && t@ == text@,
            },
    {
        match self {
            Response::Success(Some(_)) => Err(
                Error::Protocol(String::from_str("Unexpected value in the response to a write")),
            ),
            Response::Success(None) => Ok(()),
            Response::Failure(text) => Err(Error::Server(text)),
        }
    }
}

} // verus!
