//! The log-structured store: an index from each live key to the extent of
//! its record in the log, a cache of values, and the count of stale records
//! that decides when the log is rewritten.
//!
//! The store keeps the books; it does not touch the disk. Its caller writes
//! each record to the active log and tells the store how long the record
//! was, reads the extent that a lookup names and hands the record back, and
//! copies the extents that a compaction plan lists.

use chashmap::CHashMap;
use vstd::prelude::*;
use vstd::string::*;

use crate::engines::log::{
    compacted, enumerates, lemma_compacted_no_longer, lemma_count_at_most_bytes,
    lemma_live_in_bounds, lemma_live_nonempty, lemma_prefix_len, lemma_prefix_step,
    lemma_replay_compacted, nonempty_records, replay, total_len, Record,
};
use crate::engines::state::{index_of, lemma_index_step, plan_keys, well_sized, StoreState};
use crate::engines::table::{
    cache_entries, cache_get, cache_insert, cache_new, cache_remove, index_entries, index_get,
    index_insert, index_list, index_new, index_remove,
};
use crate::error::Error;

verus! {

/// The number of stale records at which the log is rewritten.
pub const COMPACTION_THRESHOLD: u64 = 1024;

/// Where a record lies in the active log: the offset of its first byte and
/// its length in bytes.
#[derive(Clone, Copy, Debug, PartialEq, Eq, Structural)]
pub struct LogIndex {
    pub pos: u64,
    pub len: u64,
}

impl LogIndex {
    /// The extent of `len` bytes that starts at offset `pos`.
    pub fn new(pos: u64, len: u64) -> (at: LogIndex)
        ensures
            at == (LogIndex { pos, len }),
    {
        LogIndex { pos, len }
    }
}

/// A command as the log stores it.
#[derive(Debug, PartialEq, Eq)]
pub enum Command {
    SetKey { key: String, value: String },
    Rm { key: String },
}

impl Command {
    /// The record that this command makes when it takes `len` bytes.
    pub open spec fn record(self, len: nat) -> Record {
        match self {
            Command::SetKey { key, value } => Record { key: key@, value: Some(value@), len },
            Command::Rm { key } => Record { key: key@, value: None, len },
        }
    }
}

/// A command read back from the log, with the number of bytes it took there.
#[derive(Debug, PartialEq, Eq)]
pub struct LogEntry {
    pub cmd: Command,
    pub len: u64,
}

impl View for LogEntry {
    type V = Record;

    open spec fn view(&self) -> Record {
        self.cmd.record(self.len as nat)
    }
}

/// The records of a list of entries, in order.
pub open spec fn records(entries: Seq<LogEntry>) -> Seq<Record> {
    Seq::new(entries.len(), |i: int| entries[i]@)
}

/// What the store knows of a key before anything is read from disk.
#[derive(Debug, PartialEq, Eq)]
pub enum Lookup {
    /// The value is in the cache.
    Cached(String),
    /// The value is in the record at this extent of the log.
    Stored(LogIndex),
    /// The key is not live.
    Missing,
}

/// A lookup's result as the contracts speak of it.
pub enum LookupView {
    Cached(Seq<char>),
    Stored(LogIndex),
    Missing,
}

impl View for Lookup {
    type V = LookupView;

    open spec fn view(&self) -> LookupView {
        match self {
            Lookup::Cached(value) => LookupView::Cached(value@),
            Lookup::Stored(at) => LookupView::Stored(*at),
            Lookup::Missing => LookupView::Missing,
        }
    }
}

/// One step of a compaction: the record of `key`, which lies at `from` in
/// the old log, starts at offset `to` in the new one.
#[derive(Debug, PartialEq, Eq)]
pub struct Relocation {
    pub key: String,
    pub from: LogIndex,
    pub to: u64,
}

/// What is said of a list of entries whose lengths no log can have.
pub open spec fn impossible_length() -> Seq<char> {
    "The log holds a record of impossible length"@
}

/// The key-value store over a command log.
pub struct KvStore {
    imap: CHashMap<String, LogIndex>,
    cache: CHashMap<String, String>,
    pos: u64,
    dead: u64,
    log: Ghost<Seq<Record>>,
}

impl View for KvStore {
    type V = StoreState;

    closed spec fn view(&self) -> StoreState {
        StoreState {
            log: self.log@,
            index: index_entries(self.imap),
            cache: cache_entries(self.cache),
            dead: self.dead as nat,
        }
    }
}

impl KvStore {
    /// The offset at which the next record is written.
    pub closed spec fn end(&self) -> u64 {
        self.pos
    }

    /// The state is well formed, and the write position is the end of the
    /// log.
    pub open spec fn wf(&self) -> bool {
        &&& self@.wf()
        &&& self.end() == total_len(self@.log)
    }

    /// Rebuilds the index by replaying `entries` from the start: `map` ends
    /// up as the index of the log that the entries make, and the offset
    /// behind the last entry is returned. Entries that no log can hold, one
    /// without bytes or more bytes than an offset can count, are refused.
    fn load_log(entries: &Vec<LogEntry>, map: &mut CHashMap<String, LogIndex>) -> (end: Result<
        u64,
        Error,
    >)
        requires
            forall|key: Seq<char>| !index_entries(*old(map)).contains_key(key),
        ensures
            match end {
                Ok(pos) => {
                    &&& well_sized(records(entries@))
                    &&& index_entries(*final(map)) == index_of(records(entries@))
                    &&& pos == total_len(records(entries@))
                },
                Err(e) => {
                    &&& !well_sized(records(entries@))
                    &&& e matches Error::Serde(text) && text@ == impossible_length()
                },
            },
    {
        let ghost log = records(entries@);
        let mut pos: u64 = 0;
        let mut i: usize = 0;
        proof {
            assert(log.take(0) =~= Seq::<Record>::empty());
            assert(index_entries(*map) =~= index_of(log.take(0)));
        }
        while i < entries.len()
            invariant
                i <= entries.len(),
                log == records(entries@),
                nonempty_records(log.take(i as int)),
                pos == total_len(log.take(i as int)),
                index_entries(*map) == index_of(log.take(i as int)),
            decreases entries.len() - i,
        {
            let entry = &entries[i];
            proof {
                lemma_prefix_len(log, i + 1);
                lemma_prefix_step(log, i as int);
                assert(log.take(i + 1) =~= log.take(i as int).push(log[i as int]));
                assert(log[i as int] == entry@);
            }
            if entry.len == 0 {
                return Err(Error::Serde(String::from_str("The log holds a record of impossible length")));
            }
            let next = match pos.checked_add(entry.len) {
                Some(next) => next,
                None => {
                    return Err(
                        Error::Serde(String::from_str("The log holds a record of impossible length")),
                    );
                },
            };
            proof {
                lemma_index_step(log.take(i as int), log[i as int]);
            }
            match &entry.cmd {
                Command::SetKey { key, value: _ } => {
                    index_insert(map, key.clone(), LogIndex::new(pos, entry.len));
                },
                Command::Rm { key } => {
                    index_remove(map, key);
                },
            }
            pos = next;
            i = i + 1;
        }
        proof {
            assert(log.take(i as int) =~= log);
        }
        Ok(pos)
    }

    /// Opens a store on the commands that the active log holds, first to
    /// last: the index is rebuilt by replaying them. A list whose lengths no
    /// log can have shows a corrupt log and is refused.
    pub fn open(entries: &Vec<LogEntry>) -> (opened: Result<KvStore, Error>)
        ensures
            match opened {
                Ok(store) => {
                    &&& well_sized(records(entries@))
                    &&& store.wf()
                    &&& store@ == StoreState::opened(records(entries@))
                },
                Err(e) => {
                    &&& !well_sized(records(entries@))
                    &&& e matches Error::Serde(text) && text@ == impossible_length()
                },
            },
    {
        let mut imap = index_new();
        let pos = match KvStore::load_log(entries, &mut imap) {
            Ok(pos) => pos,
            Err(e) => {
                return Err(e);
            },
        };
        let cache = cache_new();
        proof {
            assert(cache_entries(cache) =~= Map::<Seq<char>, Seq<char>>::empty());
        }
        Ok(KvStore { imap, cache, pos, dead: 0, log: Ghost(records(entries@)) })
    }

    /// The length of the active log in bytes: the offset at which the next
    /// record starts.
    pub fn log_len(&self) -> (len: u64)
        ensures
            len == self.end(),
    {
        self.pos
    }

    /// The number of stale records counted since the log was last rewritten.
    pub fn dead(&self) -> (count: u64)
        ensures
            count == self@.dead,
    {
        self.dead
    }

    /// Whether `key` is live.
    pub fn contains_key(&self, key: &String) -> (live: bool)
        ensures
            live == self@.index.contains_key(key@),
    {
        index_get(&self.imap, key).is_some()
    }

    /// Looks `key` up without reading the log: the cached value if there is
    /// one, else the extent of the record to read, else nothing.
    pub fn get(&self, key: &String) -> (found: Lookup)
        ensures
            found@ == self@.lookup(key@),
            self.wf() ==> (found matches Lookup::Stored(at) ==> at.len >= 1 && at.pos + at.len
                <= self.end()),
    {
        proof {
            if self.wf() && self@.index.contains_key(key@) {
                lemma_live_in_bounds(self@.log, key@);
                lemma_live_nonempty(self@.log, key@);
            }
        }
        match cache_get(&self.cache, key) {
            Some(value) => Lookup::Cached(value),
            None => match index_get(&self.imap, key) {
                Some(at) => Lookup::Stored(at),
                None => Lookup::Missing,
            },
        }
    }

    /// Takes the record that was read for `key` from the extent that `get`
    /// named. A record that stores a value under that very key is cached and
    /// its value returned; any other record shows a corrupt log and leaves
    /// the store as it was.
    pub fn remember(&mut self, key: String, record: Command) -> (value: Option<String>)
        ensures
            old(self).wf() ==> final(self).wf(),
            match record {
                Command::SetKey { key: stored, value: text } if stored@ == key@ => {
                    &&& value matches Some(v) && v@ == text@
                    &&& final(self)@ == old(self)@.remember(key@, text@)
                },
                _ => value is None && final(self)@ == old(self)@,
            },
    {
        match record {
            Command::SetKey { key: stored, value: text } => {
                if stored == key {
                    cache_insert(&mut self.cache, key, text.clone());
                    Some(text)
                } else {
                    None
                }
            },
            Command::Rm { key: _ } => None,
        }
    }

    /// Records that a command storing `value` under `key` was appended to the
    /// log and took `len` bytes there. When this makes the stale records
    /// reach the threshold the log is compacted, and the plan of that
    /// compaction is returned for the caller to carry out.
    pub fn set(&mut self, key: String, value: String, len: u64) -> (plan: Option<Vec<Relocation>>)
        requires
            old(self).wf(),
            len >= 1,
            total_len(old(self)@.log) + len <= u64::MAX,
        ensures
            final(self).wf(),
            match plan {
                None => {
                    &&& !old(self)@.set(key@, value@, len as nat).due()
                    &&& final(self)@ == old(self)@.set(key@, value@, len as nat)
                },
                Some(moves) => {
                    &&& old(self)@.set(key@, value@, len as nat).due()
                    &&& old(self)@.set(key@, value@, len as nat).relocates(moves@, final(self)@)
                },
            },
    {
        let ghost last = Record { key: key@, value: Some(value@), len: len as nat };
        proof {
            lemma_index_step(self.log@, last);
            lemma_count_at_most_bytes(self.log@);
        }
        let at = LogIndex::new(self.pos, len);
        cache_insert(&mut self.cache, key.clone(), value);
        let prior = index_insert(&mut self.imap, key, at);
        if prior.is_some() {
            self.dead = self.dead + 1;
        }
        self.pos = self.pos + len;
        proof {
            self.log@ = self.log@.push(last);
        }
        if self.dead >= COMPACTION_THRESHOLD {
            Some(self.compact())
        } else {
            None
        }
    }

    /// Records that a command removing `key` was appended to the log and
    /// took `len` bytes there. A key that is not live is refused, and the
    /// store stays as it was.
    pub fn remove(&mut self, key: &String, len: u64) -> (done: Result<(), Error>)
        requires
            old(self).wf(),
            len >= 1,
            total_len(old(self)@.log) + len <= u64::MAX,
        ensures
            final(self).wf(),
            match done {
                Ok(()) => {
                    &&& old(self)@.index.contains_key(key@)
                    &&& final(self)@ == old(self)@.remove(key@, len as nat)
                },
                Err(e) => {
                    &&& !old(self)@.index.contains_key(key@)
                    &&& e is KeyNotFound
                    &&& final(self)@ == old(self)@
                },
            },
    {
        let ghost last = Record { key: key@, value: None, len: len as nat };
        let prior = index_remove(&mut self.imap, key);
        if prior.is_none() {
            proof {
                assert(index_entries(self.imap) =~= old(self)@.index);
            }
            return Err(Error::KeyNotFound);
        }
        proof {
            lemma_index_step(self.log@, last);
            lemma_count_at_most_bytes(self.log@);
        }
        self.dead = self.dead + 1;
        cache_remove(&mut self.cache, key);
        self.pos = self.pos + len;
        proof {
            self.log@ = self.log@.push(last);
        }
        Ok(())
    }

    /// Compacts the log: plans a new log that holds the record of each live
    /// key and nothing else, points the index into it and forgets the stale
    /// records. The caller copies each extent of the plan to its new offset
    /// and puts the new log in the place of the old one.
    pub fn compact(&mut self) -> (plan: Vec<Relocation>)
        requires
            old(self).wf(),
        ensures
            final(self).wf(),
            old(self)@.relocates(plan@, final(self)@),
    {
        let entries = index_list(&self.imap);
        let ghost before = self@;
        let ghost keys = Seq::new(entries@.len(), |i: int| entries@[i].0@);
        let ghost out = compacted(before.log, keys);
        proof {
            assert forall|i: int| 0 <= i < keys.len() implies replay(before.log).contains_key(
                #[trigger] keys[i],
            ) by {
                assert(before.index.contains_pair(entries@[i].0@, entries@[i].1));
            }
            assert forall|k: Seq<char>| before.index.dom().contains(k) implies exists|i: int|
                0 <= i < keys.len() && keys[i] == k by {
                let i = choose|i: int| 0 <= i < entries@.len() && entries@[i].0@ == k;
                assert(keys[i] == k);
            }
            assert(enumerates(keys, before.index.dom()));
            lemma_compacted_no_longer(before.log, keys);
            lemma_replay_compacted(before.log, keys);
            assert(out.take(0) =~= Seq::<Record>::empty());
            assert(before.index.union_prefer_right(index_of(out.take(0))) =~= before.index);
        }
        let mut plan: Vec<Relocation> = Vec::new();
        let mut next: u64 = 0;
        let mut i: usize = 0;
        while i < entries.len()
            invariant
                i <= entries.len(),
                keys.len() == entries.len(),
                out == compacted(before.log, keys),
                before == old(self)@,
                before.wf(),
                enumerates(keys, before.index.dom()),
                cache_entries(self.cache) == before.cache,
                total_len(out) <= total_len(before.log),
                forall|j: int|
                    0 <= j < entries.len() ==> keys[j] == (#[trigger] entries@[j]).0@
                        && before.index.contains_pair(keys[j], entries@[j].1),
                next == total_len(out.take(i as int)),
                index_entries(self.imap) == before.index.union_prefer_right(
                    index_of(out.take(i as int)),
                ),
                plan@.len() == i,
                forall|j: int|
                    0 <= j < i ==> (#[trigger] plan@[j]).key@ == keys[j] && plan@[j].from
                        == before.index[keys[j]] && plan@[j].to == total_len(out.take(j)),
            decreases entries.len() - i,
        {
            let key = entries[i].0.clone();
            let from = entries[i].1;
            proof {
                lemma_prefix_len(out, i + 1);
                lemma_prefix_step(out, i as int);
                lemma_live_in_bounds(before.log, keys[i as int]);
                assert(out.take(i + 1) =~= out.take(i as int).push(out[i as int]));
                lemma_index_step(out.take(i as int), out[i as int]);
                assert(before.index.contains_pair(keys[i as int], entries@[i as int].1));
                assert(from.len == out[i as int].len);
            }
            index_insert(&mut self.imap, key.clone(), LogIndex::new(next, from.len));
            plan.push(Relocation { key, from, to: next });
            proof {
                assert(index_entries(self.imap) =~= before.index.union_prefer_right(
                    index_of(out.take(i + 1)),
                ));
            }
            next = next + from.len;
            i = i + 1;
        }
        self.pos = next;
        self.dead = 0;
        proof {
            self.log@ = out;
            assert(out.take(i as int) =~= out);
            assert(plan_keys(plan@) =~= keys);
            assert(index_entries(self.imap) =~= index_of(out)) by {
                assert forall|k: Seq<char>| before.index.contains_key(k) implies index_of(
                    out,
                ).contains_key(k) by {
                    let j = choose|j: int| 0 <= j < keys.len() && keys[j] == k;
                    assert(keys[j] == k);
                }
            }
            assert forall|j: int| 0 <= j < out.len() implies (#[trigger] out[j]).len >= 1 by {
                lemma_live_nonempty(before.log, keys[j]);
            }
        }
        plan
    }
}

} // verus!
