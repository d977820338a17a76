//! A log-structured key-value store: the storage engine's bookkeeping, the
//! request/response protocol and the rules that tie them together.

pub mod engines;
pub mod error;
pub mod protocol;
pub mod server;
pub mod thread_pool;

pub use engines::kvs::KvStore;
pub use engines::KvsEngine;
pub use error::Error;
pub use protocol::{Request, Response};
pub use server::KvsServer;
pub use thread_pool::ThreadPool;
