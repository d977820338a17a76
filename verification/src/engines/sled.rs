//! Adapting an embedded ordered database to the engine contract: what its
//! answers mean to a caller of the engine.

use std::string::FromUtf8Error;
use vstd::prelude::*;
use vstd::utf8::{decode_utf8, valid_utf8};

use crate::error::Error;

verus! {

/// `std::string::FromUtf8Error`, the failure of `String::from_utf8`.
#[verifier::external_type_specification]
#[verifier::external_body]
pub struct ExFromUtf8Error(FromUtf8Error);

/// `String::from_utf8`: the text that `bytes` encode when they are valid
/// UTF-8, and a failure when they are not.
#[verifier::external_body]
pub(crate) fn text_of(bytes: Vec<u8>) -> (text: Result<String, FromUtf8Error>)
    ensures
        text is Ok <==> valid_utf8(bytes@),
        text matches Ok(s) ==> s@ == decode_utf8(bytes@),
{
    String::from_utf8(bytes)
}

/// `ToString::to_string` on the failure: the words in which it says why the
/// bytes are no text.
#[verifier::external_body]
pub(crate) fn reason(failure: &FromUtf8Error) -> String {
    failure.to_string()
}

/// The outcome of a read, given what the database holds under the key: no
/// value when it holds nothing, the text that the bytes encode when they
/// are valid UTF-8, and a decoding failure when they are not.
pub fn stored_value(found: Option<Vec<u8>>) -> (outcome: Result<Option<String>, Error>)
    ensures
        match found {
            None => outcome matches Ok(None),
            Some(bytes) => if valid_utf8(bytes@) {
                outcome matches Ok(Some(s)) && s@ == decode_utf8(bytes@)
            } else {
                outcome matches Err(Error::Serde(_))
            },
        },
{
    match found {
        None => Ok(None),
        Some(bytes) => match text_of(bytes) {
            Ok(text) => Ok(Some(text)),
            Err(failure) => Err(Error::Serde(reason(&failure))),
        },
    }
}

/// The outcome of a removal, given what the database held under the key
/// before: a key that held nothing was not found.
pub fn removal(prior: Option<Vec<u8>>) -> (outcome: Result<(), Error>)
    ensures
        prior is Some ==> outcome is Ok,
        prior is None ==> outcome matches Err(Error::KeyNotFound),
{
    match prior {
        Some(_) => Ok(()),
        None => Err(Error::KeyNotFound),
    }
}

} // verus!
