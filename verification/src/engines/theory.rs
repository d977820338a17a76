//! What holds of every store: how the operations answer one another, what
//! reopening and compaction keep, and how large a compacted log is.

use vstd::prelude::*;

use crate::engines::kvs::{LogIndex, LookupView, Relocation};
use crate::engines::state::{lemma_index_step, plan_keys, StoreState};
use crate::engines::log::{
    lemma_compacted_no_longer, lemma_live_apart, lemma_live_in_bounds, lemma_live_nonempty,
    lemma_prefix_len, lemma_prefix_step, lemma_replay_compacted, replay, total_len, Record,
};

verus! {

/// In a well-formed store every extent of the index is the extent of the
/// record that backs its key: it holds at least one byte and lies inside
/// the log.
pub proof fn extent_in_bounds(state: StoreState, key: Seq<char>)
    requires
        state.wf(),
        state.index.contains_key(key),
    ensures
        state.index[key].pos == replay(state.log)[key].pos,
        state.index[key].len == replay(state.log)[key].len,
        state.index[key].len >= 1,
        state.index[key].pos + state.index[key].len <= total_len(state.log),
{
    lemma_live_in_bounds(state.log, key);
    lemma_live_nonempty(state.log, key);
}

/// In a well-formed store the extents of two different keys do not overlap.
pub proof fn extents_apart(state: StoreState, one: Seq<char>, other: Seq<char>)
    requires
        state.wf(),
        state.index.contains_key(one),
        state.index.contains_key(other),
        one != other,
    ensures
        state.index[one].pos + state.index[one].len <= state.index[other].pos
            || state.index[other].pos + state.index[other].len <= state.index[one].pos,
{
    extent_in_bounds(state, one);
    extent_in_bounds(state, other);
    lemma_live_apart(state.log, one, other);
}

/// What a lookup finds is what a read yields: a cached value is the answer,
/// an extent is that of the record that holds the answer, and a miss means
/// that there is none.
pub proof fn lookup_answers(state: StoreState, key: Seq<char>)
    requires
        state.wf(),
    ensures
        match state.lookup(key) {
            LookupView::Cached(value) => state.value_of(key) == Some(value),
            LookupView::Stored(at) => {
                &&& state.value_of(key) == Some(replay(state.log)[key].value)
                &&& at.pos == replay(state.log)[key].pos
                &&& at.len == replay(state.log)[key].len
                &&& state.remember(key, replay(state.log)[key].value).lookup(key)
                    == LookupView::Cached(replay(state.log)[key].value)
            },
            LookupView::Missing => state.value_of(key) == None::<Seq<char>>,
        },
        state.cache_sound() && state.index.contains_key(key) ==> state.value_of(key) == Some(
            replay(state.log)[key].value,
        ),
        !state.index.contains_key(key) && state.cache_sound() ==> state.value_of(key)
            == None::<Seq<char>>,
{
    if state.index.contains_key(key) {
        extent_in_bounds(state, key);
    }
}

/// The steps of a compaction plan read inside the old log and write inside
/// the new one, each right behind the one before it.
pub proof fn plan_in_bounds(before: StoreState, plan: Seq<Relocation>, after: StoreState, i: int)
    requires
        before.wf(),
        before.relocates(plan, after),
        0 <= i < plan.len(),
    ensures
        plan[i].from.len >= 1,
        plan[i].from.pos + plan[i].from.len <= total_len(before.log),
        plan[i].to + plan[i].from.len <= total_len(after.log),
        i + 1 < plan.len() ==> plan[i + 1].to == plan[i].to + plan[i].from.len,
        i + 1 == plan.len() ==> plan[i].to + plan[i].from.len == total_len(after.log),
        after.index.contains_key(plan[i].key@),
        after.index[plan[i].key@] == (LogIndex { pos: plan[i].to, len: plan[i].from.len }),
{
    let keys = plan_keys(plan);
    assert(keys[i] == plan[i].key@);
    assert(before.index.dom().contains(keys[i]));
    extent_in_bounds(before, plan[i].key@);
    compaction_keeps_answers(before, keys, after);
    lemma_replay_compacted(before.log, keys);
    lemma_prefix_step(after.log, i);
    lemma_prefix_len(after.log, i + 1);
    if i + 1 == plan.len() {
        assert(after.log.take(i + 1) =~= after.log);
    }
    assert(replay(after.log)[keys[i]].pos == total_len(after.log.take(i)));
    extent_in_bounds(after, plan[i].key@);
}

/// Setting keeps a store well formed and its cache sound.
pub proof fn set_keeps_invariants(before: StoreState, key: Seq<char>, value: Seq<char>, len: nat)
    requires
        before.wf(),
        len >= 1,
        total_len(before.log) + len <= u64::MAX,
    ensures
        before.set(key, value, len).wf(),
        before.cache_sound() ==> before.set(key, value, len).cache_sound(),
{
    let last = Record { key, value: Some(value), len };
    let after = before.set(key, value, len);
    lemma_index_step(before.log, last);
    assert(after.log.drop_last() =~= before.log);
}

/// Removing keeps a store well formed and its cache sound.
pub proof fn remove_keeps_invariants(before: StoreState, key: Seq<char>, len: nat)
    requires
        before.wf(),
        len >= 1,
        total_len(before.log) + len <= u64::MAX,
    ensures
        before.remove(key, len).wf(),
        before.cache_sound() ==> before.remove(key, len).cache_sound(),
{
    let last = Record { key, value: None, len };
    let after = before.remove(key, len);
    lemma_index_step(before.log, last);
    assert(after.log.drop_last() =~= before.log);
}

/// Caching the value that the log holds for a live key keeps a store well
/// formed and its cache sound.
pub proof fn remember_keeps_invariants(before: StoreState, key: Seq<char>, value: Seq<char>)
    requires
        before.wf(),
        before.cache_sound(),
        replay(before.log).contains_key(key),
        replay(before.log)[key].value == value,
    ensures
        before.remember(key, value).wf(),
        before.remember(key, value).cache_sound(),
{
}

/// Compaction keeps a store well formed and its cache sound, keeps the same
/// keys live, and a read of any key yields what it yielded before.
pub proof fn compaction_keeps_answers(before: StoreState, keys: Seq<Seq<char>>, after: StoreState)
    requires
        before.wf(),
        before.compacts_to(keys, after),
    ensures
        after.wf(),
        after.index.dom() == before.index.dom(),
        forall|key: Seq<char>| #[trigger]
            after.index.contains_key(key) ==> replay(after.log)[key].value == replay(
                before.log,
            )[key].value && after.index[key].len == before.index[key].len,
        before.cache_sound() ==> after.cache_sound(),
        forall|key: Seq<char>| after.value_of(key) == before.value_of(key),
{
    lemma_compacted_no_longer(before.log, keys);
    lemma_replay_compacted(before.log, keys);
    assert forall|i: int| 0 <= i < after.log.len() implies (#[trigger] after.log[i]).len >= 1 by {
        lemma_live_nonempty(before.log, keys[i]);
    }
    assert forall|key: Seq<char>| after.index.contains_key(key) <==> before.index.contains_key(
        key,
    ) by {
        if before.index.contains_key(key) {
            let i = choose|i: int| 0 <= i < keys.len() && keys[i] == key;
            assert(keys[i] == key);
        }
        if after.index.contains_key(key) {
            let i = choose|i: int| 0 <= i < keys.len() && keys[i] == key;
            assert(before.index.dom().contains(keys[i]));
        }
    }
    assert(after.index.dom() =~= before.index.dom());
    assert forall|key: Seq<char>| #[trigger] after.index.contains_key(key) implies replay(
        after.log,
    )[key].value == replay(before.log)[key].value && after.index[key].len
        == before.index[key].len by {
        let i = choose|i: int| 0 <= i < keys.len() && keys[i] == key;
        assert(replay(after.log)[keys[i]].len == replay(before.log)[keys[i]].len);
    }
    assert forall|key: Seq<char>| after.value_of(key) == before.value_of(key) by {
        if after.index.contains_key(key) {
            assert(replay(after.log)[key].value == replay(before.log)[key].value);
        }
    }
    if before.cache_sound() {
        assert forall|key: Seq<char>| #[trigger] after.cache.contains_key(key) implies replay(
            after.log,
        ).contains_key(key) && replay(after.log)[key].value == after.cache[key] by {
            assert(before.cache.contains_key(key));
            assert(before.index.contains_key(key));
            assert(after.index.contains_key(key));
        }
    }
}

/// A set is answered by the next lookup of its key: the value is found in
/// the cache, whether the set compacted the log or not.
pub proof fn set_then_get(
    before: StoreState,
    key: Seq<char>,
    value: Seq<char>,
    len: nat,
    keys: Seq<Seq<char>>,
    after: StoreState,
)
    requires
        after == before.set(key, value, len) || before.set(key, value, len).compacts_to(
            keys,
            after,
        ),
    ensures
        after.lookup(key) == LookupView::Cached(value),
        after.value_of(key) == Some(value),
{
}

/// A removal is answered by the next lookup of its key: nothing is found,
/// and the key is not live, so that removing it again is refused.
pub proof fn remove_then_get(before: StoreState, key: Seq<char>, len: nat)
    ensures
        before.remove(key, len).lookup(key) == LookupView::Missing,
        before.remove(key, len).value_of(key) == None::<Seq<char>>,
        !before.remove(key, len).index.contains_key(key),
{
}

/// Closing a store and opening one on the log it leaves gives the same
/// index, and a read of any key yields what it yielded at the close.
pub proof fn reopen_keeps_answers(state: StoreState)
    requires
        state.wf(),
        state.cache_sound(),
    ensures
        StoreState::opened(state.log).wf(),
        StoreState::opened(state.log).cache_sound(),
        StoreState::opened(state.log).index == state.index,
        forall|key: Seq<char>| StoreState::opened(state.log).value_of(key) == state.value_of(key),
{
}

/// A compacted log holds one record for each live key, as long as the
/// record that stored the key's value, and nothing else; it is no longer
/// than the log it was made from.
pub proof fn compaction_size(before: StoreState, keys: Seq<Seq<char>>, after: StoreState)
    requires
        before.wf(),
        before.compacts_to(keys, after),
    ensures
        after.log.len() == keys.len(),
        forall|i: int|
            0 <= i < keys.len() ==> (#[trigger] after.log[i]).key == keys[i] && after.log[i].value
                is Some && after.log[i].len == before.index[keys[i]].len,
        total_len(after.log) <= total_len(before.log),
{
    lemma_compacted_no_longer(before.log, keys);
    assert forall|i: int| 0 <= i < keys.len() implies (#[trigger] after.log[i]).len
        == before.index[keys[i]].len by {
        assert(before.index.dom().contains(keys[i]));
        lemma_live_in_bounds(before.log, keys[i]);
    }
}

/// Setting a key to the value it was just set to changes no answer: a read
/// of any key yields the same after the second set as after the first.
pub proof fn set_twice(
    before: StoreState,
    key: Seq<char>,
    value: Seq<char>,
    first: nat,
    second: nat,
)
    requires
        before.wf(),
    ensures
        forall|other: Seq<char>|
            before.set(key, value, first).set(key, value, second).value_of(other) == before.set(
                key,
                value,
                first,
            ).value_of(other),
        before.set(key, value, first).set(key, value, second).index.dom() == before.set(
            key,
            value,
            first,
        ).index.dom(),
{
    let once = before.set(key, value, first);
    let twice = once.set(key, value, second);
    assert(once.log.drop_last() =~= before.log);
    assert(twice.log.drop_last() =~= once.log);
    assert(twice.index.dom() =~= once.index.dom());
    assert forall|other: Seq<char>| twice.value_of(other) == once.value_of(other) by {
        if other != key {
            assert(twice.cache.contains_key(other) == once.cache.contains_key(other));
        }
    }
}

/// A store opened on an empty log holds nothing: every lookup misses, and
/// no key is live, so that every removal is refused.
pub proof fn fresh_store_is_empty(key: Seq<char>)
    ensures
        StoreState::opened(Seq::empty()).wf(),
        StoreState::opened(Seq::empty()).cache_sound(),
        StoreState::opened(Seq::empty()).lookup(key) == LookupView::Missing,
        StoreState::opened(Seq::empty()).value_of(key) == None::<Seq<char>>,
        !StoreState::opened(Seq::empty()).index.contains_key(key),
{
}

/// A set changes the answer for its own key only: a read of any other key
/// yields what it yielded before, so that writers of different keys never
/// undo one another's work.
pub proof fn set_leaves_other_keys(
    before: StoreState,
    key: Seq<char>,
    value: Seq<char>,
    len: nat,
    other: Seq<char>,
)
    requires
        before.wf(),
        other != key,
    ensures
        before.set(key, value, len).value_of(other) == before.value_of(other),
        before.set(key, value, len).index.contains_key(other) == before.index.contains_key(other),
{
    assert(before.set(key, value, len).log.drop_last() =~= before.log);
}

/// A removal changes the answer for its own key only.
pub proof fn remove_leaves_other_keys(
    before: StoreState,
    key: Seq<char>,
    len: nat,
    other: Seq<char>,
)
    requires
        before.wf(),
        other != key,
    ensures
        before.remove(key, len).value_of(other) == before.value_of(other),
        before.remove(key, len).index.contains_key(other) == before.index.contains_key(other),
{
    assert(before.remove(key, len).log.drop_last() =~= before.log);
}

/// One operation leads from `before` to `after`: a set or a removal whose
/// record fits the log, the caching of a value that the log holds, or a
/// compaction.
pub open spec fn step(before: StoreState, after: StoreState) -> bool {
    ||| exists|key: Seq<char>, value: Seq<char>, len: nat|
        len >= 1 && total_len(before.log) + len <= u64::MAX && after == #[trigger] before.set(
            key,
            value,
            len,
        )
    ||| exists|key: Seq<char>, len: nat|
        before.index.contains_key(key) && len >= 1 && total_len(before.log) + len <= u64::MAX
            && after == #[trigger] before.remove(key, len)
    ||| exists|key: Seq<char>, value: Seq<char>|
        replay(before.log).contains_key(key) && replay(before.log)[key].value == value && after
            == #[trigger] before.remember(key, value)
    ||| exists|keys: Seq<Seq<char>>| #[trigger] before.compacts_to(keys, after)
}

/// Each state of `states` comes from the one before it by one operation.
pub open spec fn history(states: Seq<StoreState>) -> bool {
    forall|i: int| 0 < i < states.len() ==> step(states[i - 1], #[trigger] states[i])
}

/// Whatever operations follow one another, in whatever number: a store that
/// starts well formed and with a sound cache stays so, and a store opened on
/// the log that the last state leaves answers every read as that state does.
pub proof fn every_state_is_sound(states: Seq<StoreState>)
    requires
        states.len() > 0,
        states[0].wf(),
        states[0].cache_sound(),
        history(states),
    ensures
        forall|i: int| 0 <= i < states.len() ==> (#[trigger] states[i]).wf() && states[i].cache_sound(),
        forall|key: Seq<char>|
            StoreState::opened(states.last().log).value_of(key) == states.last().value_of(key),
    decreases states.len(),
{
    if states.len() > 1 {
        let earlier = states.drop_last();
        assert forall|i: int| 0 < i < earlier.len() implies step(
            earlier[i - 1],
            #[trigger] earlier[i],
        ) by {
            assert(step(states[i - 1], states[i]));
        }
        every_state_is_sound(earlier);
        let before = earlier.last();
        let after = states.last();
        assert(before.wf() && before.cache_sound());
        assert(step(states[states.len() - 2], states[states.len() - 1]));
        if exists|key: Seq<char>, value: Seq<char>, len: nat|
            len >= 1 && total_len(before.log) + len <= u64::MAX && after == #[trigger] before.set(
                key,
                value,
                len,
            ) {
            let (key, value, len) = choose|key: Seq<char>, value: Seq<char>, len: nat|
                len >= 1 && total_len(before.log) + len <= u64::MAX && after
                    == #[trigger] before.set(key, value, len);
            set_keeps_invariants(before, key, value, len);
        } else if exists|key: Seq<char>, len: nat|
            before.index.contains_key(key) && len >= 1 && total_len(before.log) + len <= u64::MAX
                && after == #[trigger] before.remove(key, len) {
            let (key, len) = choose|key: Seq<char>, len: nat|
                before.index.contains_key(key) && len >= 1 && total_len(before.log) + len
                    <= u64::MAX && after == #[trigger] before.remove(key, len);
            remove_keeps_invariants(before, key, len);
        } else if exists|key: Seq<char>, value: Seq<char>|
            replay(before.log).contains_key(key) && replay(before.log)[key].value == value && after
                == #[trigger] before.remember(key, value) {
            let (key, value) = choose|key: Seq<char>, value: Seq<char>|
                replay(before.log).contains_key(key) && replay(before.log)[key].value == value
                    && after == #[trigger] before.remember(key, value);
            remember_keeps_invariants(before, key, value);
        } else {
            let keys = choose|keys: Seq<Seq<char>>| #[trigger] before.compacts_to(keys, after);
            compaction_keeps_answers(before, keys, after);
        }
        assert forall|i: int| 0 <= i < states.len() implies (#[trigger] states[i]).wf()
            && states[i].cache_sound() by {
            if i < states.len() - 1 {
                assert(states[i] == earlier[i]);
            }
        }
    }
    reopen_keeps_answers(states.last());
}

} // verus!
