//! The two concurrent hash maps of the store, the index and the read cache,
//! as this library uses them: what each holds is named, and each call into
//! the map states what it does to that.
//!
//! Lookups and removals go through `CHashMap::alter`. The map's own `get`
//! and `remove` search for the key or a never-used bucket and abort when the
//! table has neither, which happens once removals have used up the buckets
//! a small map started with. `alter` and `insert` settle for a bucket that
//! was freed, and the map keeps some bucket unoccupied at all times.

use chashmap::CHashMap;
use vstd::prelude::*;

use crate::engines::kvs::LogIndex;

verus! {

/// `chashmap::CHashMap`, a value that verified code carries and hands to the
/// calls below without looking inside.
#[verifier::external_type_specification]
#[verifier::external_body]
#[verifier::reject_recursive_types(K)]
#[verifier::reject_recursive_types(V)]
pub struct ExCHashMap<K, V>(CHashMap<K, V>);

/// The entries of an index map: for each key the extent of its record.
pub uninterp spec fn index_entries(map: CHashMap<String, LogIndex>) -> Map<Seq<char>, LogIndex>;

/// The entries of a cache map: for each key its value.
pub uninterp spec fn cache_entries(map: CHashMap<String, String>) -> Map<Seq<char>, Seq<char>>;

/// What a map holds under a key, if anything.
pub open spec fn entry<V>(entries: Map<Seq<char>, V>, key: Seq<char>) -> Option<V> {
    if entries.contains_key(key) {
        Some(entries[key])
    } else {
        None
    }
}

/// Hands an index entry back to the map unchanged and notes it in `seen`.
pub(crate) fn keep_extent(slot: Option<LogIndex>, seen: &mut Option<LogIndex>) -> (kept: Option<LogIndex>)
    ensures
        kept == slot,
        *final(seen) == slot,
{
    *seen = slot;
    slot
}

/// Hands a cached value back to the map unchanged and notes a copy in `seen`.
pub(crate) fn keep_value(slot: Option<String>, seen: &mut Option<String>) -> (kept: Option<String>)
    ensures
        kept == slot,
        *final(seen) == slot,
{
    *seen = slot.clone();
    slot
}

/// Takes an entry out of the map: notes it in `seen` and leaves nothing.
pub(crate) fn take_slot<V>(slot: Option<V>, seen: &mut Option<V>) -> (left: Option<V>)
    ensures
        left is None,
        *final(seen) == slot,
{
    *seen = slot;
    None
}

/// `CHashMap::new`: a map without entries.
#[verifier::external_body]
pub(crate) fn index_new() -> (fresh: CHashMap<String, LogIndex>)
    ensures
        forall|key: Seq<char>| !index_entries(fresh).contains_key(key),
{
    CHashMap::new()
}

/// `CHashMap::insert`: sets the entry of `key`, replacing the one it had, and
/// returns the replaced extent.
#[verifier::external_body]
pub(crate) fn index_insert(map: &mut CHashMap<String, LogIndex>, key: String, at: LogIndex) -> (prior:
    Option<LogIndex>)
    ensures
        index_entries(*final(map)) == index_entries(*old(map)).insert(key@, at),
        prior == entry(index_entries(*old(map)), key@),
{
    map.insert(key, at)
}

/// `CHashMap::alter` with a closure that returns what it was given: the
/// entries stay as they are, and the extent under `key`, if any, comes back.
#[verifier::external_body]
pub(crate) fn index_get(map: &CHashMap<String, LogIndex>, key: &String) -> (found: Option<LogIndex>)
    ensures
        found == entry(index_entries(*map), key@),
{
    let mut seen = None;
    map.alter(key.clone(), |slot| keep_extent(slot, &mut seen));
    seen
}

/// `CHashMap::alter` with a closure that returns `None`: the entry of `key`
/// leaves the map, and the extent it had, if any, comes back.
#[verifier::external_body]
pub(crate) fn index_remove(map: &mut CHashMap<String, LogIndex>, key: &String) -> (prior: Option<
    LogIndex,
>)
    ensures
        index_entries(*final(map)) == index_entries(*old(map)).remove(key@),
        prior == entry(index_entries(*old(map)), key@),
{
    let mut seen = None;
    map.alter(key.clone(), |slot| take_slot(slot, &mut seen));
    seen
}

/// `CHashMap::clone` and `CHashMap::into_iter`: every entry of the map, each
/// key once, in an order that the map does not promise.
#[verifier::external_body]
pub(crate) fn index_list(map: &CHashMap<String, LogIndex>) -> (all: Vec<(String, LogIndex)>)
    ensures
        forall|i: int|
            0 <= i < all.len() ==> index_entries(*map).contains_pair(
                (#[trigger] all[i]).0@,
                all[i].1,
            ),
        forall|i: int, j: int| 0 <= i < j < all.len() ==> all[i].0@ != all[j].0@,
        forall|key: Seq<char>|
            index_entries(*map).contains_key(key) ==> exists|i: int|
                0 <= i < all.len() && all[i].0@ == key,
{
    map.clone().into_iter().collect()
}

/// `CHashMap::new`: a map without entries.
#[verifier::external_body]
pub(crate) fn cache_new() -> (fresh: CHashMap<String, String>)
    ensures
        forall|key: Seq<char>| !cache_entries(fresh).contains_key(key),
{
    CHashMap::new()
}

/// `CHashMap::insert`: sets the value of `key`, replacing the one it had.
#[verifier::external_body]
pub(crate) fn cache_insert(map: &mut CHashMap<String, String>, key: String, value: String)
    ensures
        cache_entries(*final(map)) == cache_entries(*old(map)).insert(key@, value@),
{
    map.insert(key, value);
}

/// `CHashMap::alter` with a closure that returns what it was given: the
/// entries stay as they are, and a copy of the value under `key`, if any,
/// comes back.
#[verifier::external_body]
pub(crate) fn cache_get(map: &CHashMap<String, String>, key: &String) -> (found: Option<String>)
    ensures
        found is Some <==> cache_entries(*map).contains_key(key@),
        found matches Some(value) ==> value@ == cache_entries(*map)[key@],
{
    let mut seen = None;
    map.alter(key.clone(), |slot| keep_value(slot, &mut seen));
    seen
}

/// `CHashMap::alter` with a closure that returns `None`: the value of `key`
/// leaves the map.
#[verifier::external_body]
pub(crate) fn cache_remove(map: &mut CHashMap<String, String>, key: &String)
    ensures
        cache_entries(*final(map)) == cache_entries(*old(map)).remove(key@),
{
    let mut seen = None;
    map.alter(key.clone(), |slot| take_slot(slot, &mut seen));
}

} // verus!
