//! Thread pools: the contract of a pool, and the messages that the workers
//! of a pool with a shared queue live by.

use vstd::prelude::*;

use crate::error::Error;

pub mod shared_queue;

verus! {

/// A pool of threads that run jobs.
pub trait ThreadPool {
    /// Makes a pool of `threads` workers; a pool has one worker at least.
    fn new(threads: u32) -> Result<Self, Error> where Self: Sized
        requires
            threads > 0,
    ;

    /// Hands `job` to the pool, to be run on one of its threads. A job that
    /// panics does not take the pool down.
    fn spawn<F>(&self, job: F) where F: FnOnce() + Send + 'static;
}

} // verus!
