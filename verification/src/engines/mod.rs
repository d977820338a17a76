//! Storage engines: the contract that the server asks of one, the
//! log-structured engine, and what adapting an embedded database takes.

use vstd::prelude::*;

use crate::error::Error;

pub mod choice;
pub mod kvs;
pub mod log;
pub mod sled;
pub mod state;
pub mod table;
pub mod theory;

verus! {

/// A key-value storage engine behind a handle that is cheap to clone and
/// can be used from many threads: clones share one state.
///
/// Every operation states which outcomes it allows by a predicate of the
/// implementation's choosing; what is proved of a caller holds for the
/// outcomes that the predicate admits.
pub trait KvsEngine: Clone + Send + 'static {
    /// The outcomes that setting `key` to `value` may have: any, unless the
    /// implementation says otherwise.
    open spec fn set_allows(
        &self,
        key: Seq<char>,
        value: Seq<char>,
        outcome: Result<(), Error>,
    ) -> bool {
        true
    }

    /// The outcomes that reading `key` may have: any, unless the
    /// implementation says otherwise.
    open spec fn get_allows(&self, key: Seq<char>, outcome: Result<Option<String>, Error>) -> bool {
        true
    }

    /// The outcomes that removing `key` may have: any, unless the
    /// implementation says otherwise.
    open spec fn remove_allows(&self, key: Seq<char>, outcome: Result<(), Error>) -> bool {
        true
    }

    /// Sets the value of a key.
    fn set(&self, key: String, value: String) -> (outcome: Result<(), Error>)
        ensures
            self.set_allows(key@, value@, outcome),
    ;

    /// Gets the value of a key, `None` if the key is not found.
    fn get(&self, key: String) -> (outcome: Result<Option<String>, Error>)
        ensures
            self.get_allows(key@, outcome),
    ;

    /// Removes a key; a key that is not found is an error.
    fn remove(&self, key: String) -> (outcome: Result<(), Error>)
        ensures
            self.remove_allows(key@, outcome),
    ;
}

} // verus!
