//! The server: an engine, a pool, and the rule that turns each request
//! into one call of the engine and one response.

use vstd::prelude::*;

use crate::engines::KvsEngine;
use crate::error::Error;
use crate::protocol::{unit_reply, value_reply, Request, RequestView, Response, ResponseView};
use crate::thread_pool::ThreadPool;

verus! {

/// A key-value store server: a storage engine and the pool that its
/// connections are served on.
pub struct KvsServer<E: KvsEngine, P: ThreadPool> {
    engine: E,
    pool: P,
}

impl<E: KvsEngine, P: ThreadPool> KvsServer<E, P> {
    /// The engine that the server was made with.
    pub closed spec fn spec_engine(&self) -> E {
        self.engine
    }

    /// The pool that the server was made with.
    pub closed spec fn spec_pool(&self) -> P {
        self.pool
    }

    /// A server over the given engine and pool.
    pub fn new(engine: E, pool: P) -> (server: Self)
        ensures
            server.spec_engine() == engine,
            server.spec_pool() == pool,
    {
        KvsServer { engine, pool }
    }

    /// The engine, to be cloned for each connection.
    pub fn engine(&self) -> (engine: &E)
        ensures
            *engine == self.spec_engine(),
    {
        &self.engine
    }

    /// The pool that connection handlers are spawned on.
    pub fn pool(&self) -> (pool: &P)
        ensures
            *pool == self.spec_pool(),
    {
        &self.pool
    }
}

/// `response` answers `request` on `engine`: it is the reply to an outcome
/// that the engine allows for the operation and the key that the request
/// names.
pub open spec fn answers<E: KvsEngine>(
    engine: E,
    request: RequestView,
    response: ResponseView,
) -> bool {
    match request {
        RequestView::Get { key } => exists|outcome: Result<Option<String>, Error>|
            engine.get_allows(key, outcome) && response == #[trigger] value_reply(outcome),
        RequestView::SetKey { key, value } => exists|outcome: Result<(), Error>|
            engine.set_allows(key, value, outcome) && response == #[trigger] unit_reply(outcome),
        RequestView::Rm { key } => exists|outcome: Result<(), Error>|
            engine.remove_allows(key, outcome) && response == #[trigger] unit_reply(outcome),
    }
}

/// Serves one request: calls the engine's operation that the request names,
/// once, and turns its outcome into the response. A failure of the engine
/// becomes a response that carries its message; it never ends the
/// connection.
pub fn handle_request<E: KvsEngine>(engine: &E, request: Request) -> (response: Response)
    ensures
        answers(*engine, request@, response@),
{
    match request {
        Request::Get { key } => {
            let outcome = engine.get(key);
            let ghost given = outcome;
            let response = Response::from_value(outcome);
            assert(response@ == value_reply(given));
            response
        },
        Request::SetKey { key, value } => {
            let outcome = engine.set(key, value);
            let ghost given = outcome;
            let response = Response::from_unit(outcome);
            assert(response@ == unit_reply(given));
            response
        },
        Request::Rm { key } => {
            let outcome = engine.remove(key);
            let ghost given = outcome;
            let response = Response::from_unit(outcome);
            assert(response@ == unit_reply(given));
            response
        },
    }
}

} // verus!
