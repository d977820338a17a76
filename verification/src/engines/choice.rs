//! Which engine a server runs: the one asked for, or the one that the
//! directory was made with, and never a different one than that.

use vstd::prelude::*;
use vstd::string::*;

use crate::error::Error;

verus! {

/// The engines that a server can run.
#[derive(Clone, Copy, Debug, PartialEq, Eq, Structural)]
pub enum EngineKind {
    /// The log-structured engine of this library.
    Kvs,
    /// The adapter over the embedded database.
    Sled,
}

impl EngineKind {
    /// The name that stands for this engine on the command line and in the
    /// marker that a directory keeps.
    pub open spec fn name_spec(self) -> Seq<char> {
        match self {
            EngineKind::Kvs => "kvs"@,
            EngineKind::Sled => "sled"@,
        }
    }

    /// The engine's name.
    pub fn name(&self) -> (name: String)
        ensures
            name@ == self.name_spec(),
    {
        match self {
            EngineKind::Kvs => String::from_str("kvs"),
            EngineKind::Sled => String::from_str("sled"),
        }
    }

    /// The engine that `name` stands for, if it names one.
    pub fn from_name(name: &String) -> (kind: Option<EngineKind>)
        ensures
            match kind {
                Some(k) => name@ == k.name_spec(),
                None => name@ != "kvs"@ && name@ != "sled"@,
            },
    {
        if *name == String::from_str("kvs") {
            Some(EngineKind::Kvs)
        } else if *name == String::from_str("sled") {
            Some(EngineKind::Sled)
        } else {
            None
        }
    }
}

/// What `get_engine` owes for a request and a marker.
pub open spec fn engine_choice(requested: Option<String>, stored: Option<String>, choice: Result<
    String,
    Error,
>) -> bool {
    match (requested, stored) {
        (None, None) => choice matches Ok(name) && name@ == "kvs"@,
        (None, Some(s)) => choice matches Ok(name) && name@ == s@,
        (Some(r), None) => choice matches Ok(name) && name@ == r@,
        (Some(r), Some(s)) => if r@ == s@ {
            choice matches Ok(name) && name@ == r@
        } else {
            choice matches Err(Error::EngineMismatch { requested: a, stored: b }) && a@ == r@ && b@
                == s@
        },
    }
}

/// Chooses the engine to run from the one asked for on the command line and
/// the one that the directory's marker names: with neither it is "kvs",
/// with one of them it is that one, with both it is theirs when they agree
/// and a mismatch when they do not.
pub fn get_engine(requested: Option<String>, stored: Option<String>) -> (choice: Result<
    String,
    Error,
>)
    ensures
        engine_choice(requested, stored, choice),
{
    match (requested, stored) {
        (None, None) => Ok(String::from_str("kvs")),
        (None, Some(s)) => Ok(s),
        (Some(r), None) => Ok(r),
        (Some(r), Some(s)) => {
            if r == s {
                Ok(r)
            } else {
                Err(Error::EngineMismatch { requested: r, stored: s })
            }
        },
    }
}

} // verus!
