//! The state of a store as the contracts speak of it, and what each
//! operation makes of it.

use vstd::prelude::*;

use crate::engines::kvs::{LogIndex, LookupView, Relocation, COMPACTION_THRESHOLD};
use crate::engines::log::{compacted, enumerates, nonempty_records, replay, total_len, Record};

verus! {

/// The keys of a compaction plan, in the order of its steps.
pub open spec fn plan_keys(plan: Seq<Relocation>) -> Seq<Seq<char>> {
    Seq::new(plan.len(), |i: int| plan[i].key@)
}

/// The lengths are those of a log: every record holds a byte at least, and
/// an offset can count them all.
pub open spec fn well_sized(log: Seq<Record>) -> bool {
    nonempty_records(log) && total_len(log) <= u64::MAX
}

/// The index that replaying `log` builds.
pub open spec fn index_of(log: Seq<Record>) -> Map<Seq<char>, LogIndex> {
    Map::new(
        |key: Seq<char>| replay(log).contains_key(key),
        |key: Seq<char>|
            LogIndex { pos: replay(log)[key].pos as u64, len: replay(log)[key].len as u64 },
    )
}

/// The state of a store: the records of the active log, the index, the
/// cache and the count of stale records.
#[verifier::ext_equal]
pub struct StoreState {
    pub log: Seq<Record>,
    pub index: Map<Seq<char>, LogIndex>,
    pub cache: Map<Seq<char>, Seq<char>>,
    pub dead: nat,
}

impl StoreState {
    /// The index is the one that replaying the log builds, the log fits the
    /// offsets' range, and no more records are stale than were written.
    pub open spec fn wf(self) -> bool {
        &&& well_sized(self.log)
        &&& self.index == index_of(self.log)
        &&& self.dead <= self.log.len()
    }

    /// Every cached value is the value of the record that backs its key.
    pub open spec fn cache_sound(self) -> bool {
        forall|key: Seq<char>| #[trigger]
            self.cache.contains_key(key) ==> replay(self.log).contains_key(key) && replay(
                self.log,
            )[key].value == self.cache[key]
    }

    /// A store opened on a log: the index is rebuilt, nothing is cached and
    /// nothing counts as stale.
    pub open spec fn opened(log: Seq<Record>) -> StoreState {
        StoreState { log, index: index_of(log), cache: Map::empty(), dead: 0 }
    }

    /// The state after a record that stores `value` under `key` was appended.
    pub open spec fn set(self, key: Seq<char>, value: Seq<char>, len: nat) -> StoreState {
        StoreState {
            log: self.log.push(Record { key, value: Some(value), len }),
            index: self.index.insert(
                key,
                LogIndex { pos: total_len(self.log) as u64, len: len as u64 },
            ),
            cache: self.cache.insert(key, value),
            dead: if self.index.contains_key(key) {
                self.dead + 1
            } else {
                self.dead
            },
        }
    }

    /// The state after a record that removes the live key `key` was appended.
    pub open spec fn remove(self, key: Seq<char>, len: nat) -> StoreState {
        StoreState {
            log: self.log.push(Record { key, value: None, len }),
            index: self.index.remove(key),
            cache: self.cache.remove(key),
            dead: self.dead + 1,
        }
    }

    /// The state after `value` was cached for `key`.
    pub open spec fn remember(self, key: Seq<char>, value: Seq<char>) -> StoreState {
        StoreState { cache: self.cache.insert(key, value), ..self }
    }

    /// Whether so many records are stale that the log is to be rewritten.
    pub open spec fn due(self) -> bool {
        self.dead >= COMPACTION_THRESHOLD
    }

    /// `after` is this state compacted with the live keys taken in the order
    /// of `keys`: the log holds one record for each live key and nothing
    /// else, the index points into that log, the cache is untouched and no
    /// record is stale.
    pub open spec fn compacts_to(self, keys: Seq<Seq<char>>, after: StoreState) -> bool {
        &&& enumerates(keys, self.index.dom())
        &&& after.log == compacted(self.log, keys)
        &&& after.index == index_of(after.log)
        &&& after.cache == self.cache
        &&& after.dead == 0
    }

    /// `plan` carries this state over to `after`: its keys are the live keys,
    /// each step names the extent its key has here and the offset at which
    /// the record starts in the compacted log, right behind the records of
    /// the steps before it.
    pub open spec fn relocates(self, plan: Seq<Relocation>, after: StoreState) -> bool {
        &&& self.compacts_to(plan_keys(plan), after)
        &&& forall|i: int|
            0 <= i < plan.len() ==> (#[trigger] plan[i]).from == self.index[plan[i].key@]
                && plan[i].to == total_len(after.log.take(i))
    }

    /// What the store knows of `key` without reading the log.
    pub open spec fn lookup(self, key: Seq<char>) -> LookupView {
        if self.cache.contains_key(key) {
            LookupView::Cached(self.cache[key])
        } else if self.index.contains_key(key) {
            LookupView::Stored(self.index[key])
        } else {
            LookupView::Missing
        }
    }

    /// The value that a read of `key` yields: the cached one, else the one
    /// in the record that the index points to, else none.
    pub open spec fn value_of(self, key: Seq<char>) -> Option<Seq<char>> {
        if self.cache.contains_key(key) {
            Some(self.cache[key])
        } else if self.index.contains_key(key) {
            Some(replay(self.log)[key].value)
        } else {
            None
        }
    }
}

/// Appending one record to a log adds its length, and changes the index as
/// the record says: a store record points its key at the old end of the
/// log, a removal takes its key out.
pub proof fn lemma_index_step(log: Seq<Record>, last: Record)
    requires
        total_len(log) + last.len <= u64::MAX,
    ensures
        total_len(log.push(last)) == total_len(log) + last.len,
        last.value is Some ==> index_of(log.push(last)) == index_of(log).insert(
            last.key,
            LogIndex { pos: total_len(log) as u64, len: last.len as u64 },
        ),
        last.value is None ==> index_of(log.push(last)) == index_of(log).remove(last.key),
{
    assert(log.push(last).drop_last() =~= log);
    if last.value is Some {
        assert(index_of(log.push(last)) =~= index_of(log).insert(
            last.key,
            LogIndex { pos: total_len(log) as u64, len: last.len as u64 },
        ));
    } else {
        assert(index_of(log.push(last)) =~= index_of(log).remove(last.key));
    }
}

} // verus!
