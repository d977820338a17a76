use std::collections::BTreeMap;
use std::sync::{Arc, Mutex};

use kvs::engines::choice::{get_engine, EngineKind};
use kvs::server::handle_request;
use kvs::thread_pool::shared_queue::{next_step, shutdown_messages, Step, ThreadPoolMessage};
use kvs::{Error, KvsEngine, KvsServer, Request, Response, ThreadPool};

// An engine that keeps its pairs in memory behind a shared handle.
#[derive(Clone)]
struct Shelf {
    pairs: Arc<Mutex<BTreeMap<String, String>>>,
    broken: bool,
}

impl Shelf {
    fn new() -> Shelf {
        Shelf { pairs: Arc::new(Mutex::new(BTreeMap::new())), broken: false }
    }
}

impl KvsEngine for Shelf {
    fn set(&self, key: String, value: String) -> Result<(), Error> {
        if self.broken {
            return Err(Error::Io("disk full".to_string()));
        }
        self.pairs.lock().unwrap().insert(key, value);
        Ok(())
    }

    fn get(&self, key: String) -> Result<Option<String>, Error> {
        if self.broken {
            return Err(Error::Serde("bad record".to_string()));
        }
        Ok(self.pairs.lock().unwrap().get(&key).cloned())
    }

    fn remove(&self, key: String) -> Result<(), Error> {
        match self.pairs.lock().unwrap().remove(&key) {
            Some(_) => Ok(()),
            None => Err(Error::KeyNotFound),
        }
    }
}

// A pool that runs each job at once, on the caller's thread.
struct Inline {
    threads: u32,
}

impl ThreadPool for Inline {
    fn new(threads: u32) -> Result<Inline, Error> {
        Ok(Inline { threads })
    }

    fn spawn<F>(&self, job: F)
    where
        F: FnOnce() + Send + 'static,
    {
        job()
    }
}

fn set(key: &str, value: &str) -> Request {
    Request::SetKey { key: key.to_string(), value: value.to_string() }
}

fn get(key: &str) -> Request {
    Request::Get { key: key.to_string() }
}

fn rm(key: &str) -> Request {
    Request::Rm { key: key.to_string() }
}

fn value_of(response: &Response) -> Option<&str> {
    match response {
        Response::Success(Some(value)) => Some(value.as_str()),
        Response::Success(None) => None,
        Response::Failure(text) => panic!("failure: {}", text),
    }
}

#[test]
fn error_messages() {
    assert_eq!(Error::KeyNotFound.message(), "Key not found");
    assert_eq!(Error::Io("no such file".to_string()).message(), "no such file");
    assert_eq!(Error::Serde("EOF while parsing".to_string()).message(), "EOF while parsing");
    assert_eq!(Error::Protocol("odd".to_string()).message(), "odd");
    assert_eq!(Error::Server("down".to_string()).message(), "down");
    let mismatch =
        Error::EngineMismatch { requested: "sled".to_string(), stored: "kvs".to_string() };
    assert_eq!(mismatch.message(), "Inconsistent engine: sled kvs");
}

#[test]
fn responses_to_reads() {
    let found = Response::from_value(Ok(Some("v".to_string())));
    assert!(matches!(&found, Response::Success(Some(v)) if v == "v"));
    let missing = Response::from_value(Ok(None));
    assert!(matches!(missing, Response::Success(None)));
    let failed = Response::from_value(Err(Error::Io("read failed".to_string())));
    assert!(matches!(&failed, Response::Failure(text) if text == "read failed"));
}

#[test]
fn responses_to_writes() {
    assert!(matches!(Response::from_unit(Ok(())), Response::Success(None)));
    let failed = Response::from_unit(Err(Error::KeyNotFound));
    assert!(matches!(&failed, Response::Failure(text) if text == "Key not found"));
}

#[test]
fn reads_as_the_client_sees_them() {
    let found = Response::Success(Some("v".to_string())).into_value();
    assert!(matches!(&found, Ok(Some(v)) if v == "v"));
    assert!(matches!(Response::Success(None).into_value(), Ok(None)));
    let failed = Response::Failure("Key not found".to_string()).into_value();
    assert!(matches!(&failed, Err(Error::Server(text)) if text == "Key not found"));
}

#[test]
fn writes_as_the_client_sees_them() {
    assert!(matches!(Response::Success(None).into_unit(), Ok(())));
    let odd = Response::Success(Some("v".to_string())).into_unit();
    match odd {
        Err(Error::Protocol(text)) => {
            assert_eq!(text, "Unexpected value in the response to a write")
        }
        other => panic!("unexpected {:?}", other),
    }
    let failed = Response::Failure("Key not found".to_string()).into_unit();
    match failed {
        Err(e) => assert_eq!(e.message(), "Key not found"),
        Ok(()) => panic!("a failure was taken for success"),
    }
}

#[test]
fn outcomes_travel_through_responses() {
    let read = Response::from_value(Ok(Some("v".to_string()))).into_value();
    assert!(matches!(&read, Ok(Some(v)) if v == "v"));
    assert!(matches!(Response::from_value(Ok(None)).into_value(), Ok(None)));
    assert!(matches!(Response::from_unit(Ok(())).into_unit(), Ok(())));
    let failed = Response::from_unit(Err(Error::KeyNotFound)).into_unit();
    assert_eq!(failed.unwrap_err().message(), Error::KeyNotFound.message());
}

#[test]
fn requests_are_served_by_the_engine() {
    let shelf = Shelf::new();
    assert_eq!(value_of(&handle_request(&shelf, get("k"))), None);
    assert_eq!(value_of(&handle_request(&shelf, set("k", "a"))), None);
    assert_eq!(value_of(&handle_request(&shelf, get("k"))), Some("a"));
    assert_eq!(value_of(&handle_request(&shelf, set("k", "b"))), None);
    assert_eq!(value_of(&handle_request(&shelf, get("k"))), Some("b"));
    assert_eq!(value_of(&handle_request(&shelf, rm("k"))), None);
    assert_eq!(value_of(&handle_request(&shelf, get("k"))), None);
    let again = handle_request(&shelf, rm("k"));
    assert!(matches!(&again, Response::Failure(text) if text == "Key not found"));
}

#[test]
fn engine_failures_become_responses() {
    let mut shelf = Shelf::new();
    shelf.broken = true;
    let written = handle_request(&shelf, set("k", "v"));
    assert!(matches!(&written, Response::Failure(text) if text == "disk full"));
    let read = handle_request(&shelf, get("k"));
    assert!(matches!(&read, Response::Failure(text) if text == "bad record"));
}

#[test]
fn a_reader_sees_nothing_or_what_the_writer_wrote() {
    let server = KvsServer::new(Shelf::new(), Inline::new(4).unwrap());
    let writer = server.engine().clone();
    let reader = server.engine().clone();
    for i in 0..1000 {
        let key = format!("key{}", i);
        let ahead = handle_request(&reader, get(&format!("key{}", i + 1))).into_value();
        assert!(matches!(ahead, Ok(None)));
        assert!(handle_request(&writer, set(&key, &format!("value{}", i))).into_unit().is_ok());
        let behind = handle_request(&reader, get(&key)).into_value();
        assert_eq!(behind.unwrap(), Some(format!("value{}", i)));
    }
}

#[test]
fn a_server_keeps_its_engine_and_pool() {
    let shelf = Shelf::new();
    shelf.set("k".to_string(), "v".to_string()).unwrap();
    let server = KvsServer::new(shelf, Inline::new(3).unwrap());
    assert_eq!(server.pool().threads, 3);
    assert_eq!(server.engine().get("k".to_string()).unwrap(), Some("v".to_string()));
    let ran = Arc::new(Mutex::new(false));
    let flag = ran.clone();
    server.pool().spawn(move || *flag.lock().unwrap() = true);
    assert!(*ran.lock().unwrap());
}

#[test]
fn engine_is_chosen_from_request_and_marker() {
    let kvs = || Some("kvs".to_string());
    let sled = || Some("sled".to_string());
    assert_eq!(get_engine(None, None).unwrap(), "kvs");
    assert_eq!(get_engine(None, sled()).unwrap(), "sled");
    assert_eq!(get_engine(sled(), None).unwrap(), "sled");
    assert_eq!(get_engine(kvs(), kvs()).unwrap(), "kvs");
    assert_eq!(get_engine(sled(), sled()).unwrap(), "sled");
    match get_engine(kvs(), sled()) {
        Err(Error::EngineMismatch { requested, stored }) => {
            assert_eq!(requested, "kvs");
            assert_eq!(stored, "sled");
        }
        other => panic!("unexpected {:?}", other),
    }
    assert_eq!(get_engine(sled(), kvs()).unwrap_err().message(), "Inconsistent engine: sled kvs");
}

#[test]
fn engine_names() {
    assert_eq!(EngineKind::from_name(&"kvs".to_string()), Some(EngineKind::Kvs));
    assert_eq!(EngineKind::from_name(&"sled".to_string()), Some(EngineKind::Sled));
    assert_eq!(EngineKind::from_name(&"redis".to_string()), None);
    assert_eq!(EngineKind::from_name(&String::new()), None);
    assert_eq!(EngineKind::Kvs.name(), "kvs");
    assert_eq!(EngineKind::Sled.name(), "sled");
}

#[test]
fn a_worker_runs_jobs_until_it_is_told_to_stop() {
    assert!(matches!(next_step(Some(ThreadPoolMessage::RunJob(7))), Step::Run(7)));
    assert!(matches!(next_step(Some(ThreadPoolMessage::<u8>::Shutdown)), Step::Stop));
    assert!(matches!(next_step(None::<ThreadPoolMessage<u8>>), Step::Stop));
}

#[test]
fn a_pool_is_shut_down_with_one_message_for_each_worker() {
    let messages = shutdown_messages::<u8>(5);
    assert_eq!(messages.len(), 5);
    assert!(messages.iter().all(|m| matches!(m, ThreadPoolMessage::Shutdown)));
    assert!(shutdown_messages::<u8>(0).is_empty());
}
