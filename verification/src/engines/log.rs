//! The mathematical model of the command log: what a sequence of records
//! means, where each live record lies, and what compaction keeps.

use vstd::prelude::*;

verus! {

/// One record of the log as the model sees it: the key it speaks of, the
/// value it stores (`None` for a removal) and its length in bytes.
pub struct Record {
    pub key: Seq<char>,
    pub value: Option<Seq<char>>,
    pub len: nat,
}

/// The record that currently backs a key: where it starts, how long it is
/// and the value it holds.
pub struct Live {
    pub pos: nat,
    pub len: nat,
    pub value: Seq<char>,
}

/// The byte length of a log: the sum of its records' lengths.
pub open spec fn total_len(log: Seq<Record>) -> nat
    decreases log.len(),
{
    if log.len() == 0 {
        0
    } else {
        total_len(log.drop_last()) + log.last().len
    }
}

/// Replaying a log from its start: a store record makes its key live at the
/// record's offset, a removal makes the key absent.
pub open spec fn replay(log: Seq<Record>) -> Map<Seq<char>, Live>
    decreases log.len(),
{
    if log.len() == 0 {
        Map::empty()
    } else {
        let before = log.drop_last();
        let last = log.last();
        match last.value {
            Some(value) => replay(before).insert(
                last.key,
                Live { pos: total_len(before), len: last.len, value },
            ),
            None => replay(before).remove(last.key),
        }
    }
}

/// Every record of the log takes up at least one byte.
pub open spec fn nonempty_records(log: Seq<Record>) -> bool {
    forall|i: int| 0 <= i < log.len() ==> (#[trigger] log[i]).len >= 1
}

/// `keys` lists each element of `dom` exactly once.
pub open spec fn enumerates(keys: Seq<Seq<char>>, dom: Set<Seq<char>>) -> bool {
    &&& forall|i: int| 0 <= i < keys.len() ==> dom.contains(#[trigger] keys[i])
    &&& forall|i: int, j: int| 0 <= i < j < keys.len() ==> keys[i] != keys[j]
    &&& forall|k: Seq<char>| dom.contains(k) ==> exists|i: int| 0 <= i < keys.len() && keys[i] == k
}

/// The log that compaction writes: for each key of `keys`, in that order,
/// the one record that backs it in `log`.
pub open spec fn compacted(log: Seq<Record>, keys: Seq<Seq<char>>) -> Seq<Record> {
    Seq::new(
        keys.len(),
        |i: int|
            Record {
                key: keys[i],
                value: Some(replay(log)[keys[i]].value),
                len: replay(log)[keys[i]].len,
            },
    )
}

/// A log is as long as it has records, or longer, when none is empty.
pub proof fn lemma_count_at_most_bytes(log: Seq<Record>)
    requires
        nonempty_records(log),
    ensures
        log.len() <= total_len(log),
    decreases log.len(),
{
    if log.len() > 0 {
        lemma_count_at_most_bytes(log.drop_last());
    }
}

/// A prefix of a log is no longer than the log.
pub proof fn lemma_prefix_len(log: Seq<Record>, n: int)
    requires
        0 <= n <= log.len(),
    ensures
        total_len(log.take(n)) <= total_len(log),
    decreases log.len(),
{
    if n == log.len() {
        assert(log.take(n) =~= log);
    } else {
        assert(log.drop_last().take(n) =~= log.take(n));
        lemma_prefix_len(log.drop_last(), n);
    }
}

/// Taking one record more adds that record's length.
pub proof fn lemma_prefix_step(log: Seq<Record>, n: int)
    requires
        0 <= n < log.len(),
    ensures
        total_len(log.take(n + 1)) == total_len(log.take(n)) + log[n].len,
{
    assert(log.take(n + 1).drop_last() =~= log.take(n));
}

/// A live record lies inside the log.
pub proof fn lemma_live_in_bounds(log: Seq<Record>, key: Seq<char>)
    requires
        replay(log).contains_key(key),
    ensures
        replay(log)[key].pos + replay(log)[key].len <= total_len(log),
    decreases log.len(),
{
    if log.len() > 0 {
        let before = log.drop_last();
        let last = log.last();
        if last.key == key {
            assert(last.value is Some);
        } else {
            lemma_live_in_bounds(before, key);
        }
    }
}

/// A live record takes up at least one byte when every record does.
pub proof fn lemma_live_nonempty(log: Seq<Record>, key: Seq<char>)
    requires
        nonempty_records(log),
        replay(log).contains_key(key),
    ensures
        replay(log)[key].len >= 1,
    decreases log.len(),
{
    if log.len() > 0 {
        let before = log.drop_last();
        let last = log.last();
        assert(last == log[log.len() - 1]);
        if last.key == key {
            assert(last.value is Some);
        } else {
            assert forall|i: int| 0 <= i < before.len() implies (#[trigger] before[i]).len >= 1 by {
                assert(before[i] == log[i]);
            }
            lemma_live_nonempty(before, key);
        }
    }
}

/// The records that back two different keys do not overlap.
pub proof fn lemma_live_apart(log: Seq<Record>, one: Seq<char>, other: Seq<char>)
    requires
        replay(log).contains_key(one),
        replay(log).contains_key(other),
        one != other,
    ensures
        replay(log)[one].pos + replay(log)[one].len <= replay(log)[other].pos || replay(
            log,
        )[other].pos + replay(log)[other].len <= replay(log)[one].pos,
    decreases log.len(),
{
    if log.len() > 0 {
        let before = log.drop_last();
        let last = log.last();
        if last.key == one {
            lemma_live_in_bounds(before, other);
        } else if last.key == other {
            lemma_live_in_bounds(before, one);
        } else {
            lemma_live_apart(before, one, other);
        }
    }
}

/// Removing one record from a log shortens it by that record's length.
pub proof fn lemma_total_len_remove(log: Seq<Record>, j: int)
    requires
        0 <= j < log.len(),
    ensures
        total_len(log) == total_len(log.remove(j)) + log[j].len,
    decreases log.len(),
{
    if j == log.len() - 1 {
        assert(log.remove(j) =~= log.drop_last());
    } else {
        assert(log.remove(j).drop_last() =~= log.drop_last().remove(j));
        lemma_total_len_remove(log.drop_last(), j);
    }
}

/// The records of distinct live keys together are no longer than the log
/// they live in: compaction never grows a log.
pub proof fn lemma_compacted_no_longer(log: Seq<Record>, keys: Seq<Seq<char>>)
    requires
        forall|i: int| 0 <= i < keys.len() ==> replay(log).contains_key(#[trigger] keys[i]),
        forall|i: int, j: int| 0 <= i < j < keys.len() ==> keys[i] != keys[j],
    ensures
        total_len(compacted(log, keys)) <= total_len(log),
    decreases log.len(),
{
    if log.len() == 0 {
        if keys.len() > 0 {
            assert(replay(log).contains_key(keys[0]));
        }
        assert(compacted(log, keys) =~= Seq::<Record>::empty());
    } else {
        let before = log.drop_last();
        let last = log.last();
        if exists|j: int| 0 <= j < keys.len() && keys[j] == last.key {
            let j = choose|j: int| 0 <= j < keys.len() && keys[j] == last.key;
            assert(replay(log).contains_key(keys[j]));
            assert(last.value is Some);
            let rest = keys.remove(j);
            assert forall|i: int| 0 <= i < rest.len() implies replay(before).contains_key(
                #[trigger] rest[i],
            ) && rest[i] != last.key by {
                let src = if i < j { i } else { i + 1 };
                assert(rest[i] == keys[src]);
                assert(replay(log).contains_key(keys[src]));
            }
            assert forall|a: int, b: int| 0 <= a < b < rest.len() implies rest[a] != rest[b] by {
                let sa = if a < j { a } else { a + 1 };
                let sb = if b < j { b } else { b + 1 };
                assert(rest[a] == keys[sa] && rest[b] == keys[sb]);
            }
            assert(compacted(log, keys).remove(j) =~= compacted(before, rest));
            lemma_total_len_remove(compacted(log, keys), j);
            lemma_compacted_no_longer(before, rest);
        } else {
            assert forall|i: int| 0 <= i < keys.len() implies replay(before).contains_key(
                #[trigger] keys[i],
            ) by {
                assert(replay(log).contains_key(keys[i]));
                assert(keys[i] != last.key);
            }
            assert(compacted(log, keys) =~= compacted(before, keys));
            lemma_compacted_no_longer(before, keys);
        }
    }
}

/// Replaying a compacted log: each listed key is live again, with the value
/// and length it had, at the offset where its record now starts; no other
/// key is live.
pub proof fn lemma_replay_compacted(log: Seq<Record>, keys: Seq<Seq<char>>)
    requires
        forall|i: int| 0 <= i < keys.len() ==> replay(log).contains_key(#[trigger] keys[i]),
        forall|i: int, j: int| 0 <= i < j < keys.len() ==> keys[i] != keys[j],
    ensures
        forall|k: Seq<char>|
            replay(compacted(log, keys)).contains_key(k) <==> exists|i: int|
                0 <= i < keys.len() && keys[i] == k,
        forall|i: int|
            0 <= i < keys.len() ==> (#[trigger] replay(compacted(log, keys))[keys[i]]) == (Live {
                pos: total_len(compacted(log, keys).take(i)),
                len: replay(log)[keys[i]].len,
                value: replay(log)[keys[i]].value,
            }),
    decreases keys.len(),
{
    let out = compacted(log, keys);
    if keys.len() == 0 {
        assert(out =~= Seq::<Record>::empty());
    } else {
        let n = keys.len() - 1;
        let head = keys.drop_last();
        let prev = compacted(log, head);
        assert(out.drop_last() =~= prev);
        assert(out.take(n) =~= prev);
        assert forall|i: int| 0 <= i < head.len() implies replay(log).contains_key(
            #[trigger] head[i],
        ) by {
            assert(head[i] == keys[i]);
        }
        lemma_replay_compacted(log, head);
        let newest = Live {
            pos: total_len(prev),
            len: replay(log)[keys[n]].len,
            value: replay(log)[keys[n]].value,
        };
        assert(out.last().key == keys[n]);
        assert(out.last().value == Some(newest.value));
        assert(replay(out) == replay(prev).insert(keys[n], newest));
        assert forall|k: Seq<char>| replay(out).contains_key(k) <==> exists|i: int|
            0 <= i < keys.len() && keys[i] == k by {
            if replay(out).contains_key(k) {
                if k == keys[n] {
                    assert(keys[n] == k);
                } else {
                    assert(replay(prev).contains_key(k));
                    let i = choose|i: int| 0 <= i < head.len() && head[i] == k;
                    assert(keys[i] == k);
                }
            }
            if exists|i: int| 0 <= i < keys.len() && keys[i] == k {
                let i = choose|i: int| 0 <= i < keys.len() && keys[i] == k;
                if i < n {
                    assert(head[i] == k);
                    assert(replay(prev).contains_key(k));
                }
            }
        }
        assert forall|i: int| 0 <= i < keys.len() implies (#[trigger] replay(out)[keys[i]]) == (Live {
            pos: total_len(out.take(i)),
            len: replay(log)[keys[i]].len,
            value: replay(log)[keys[i]].value,
        }) by {
            if i < n {
                assert(head[i] == keys[i]);
                assert(keys[i] != keys[n]);
                assert(prev.take(i) =~= out.take(i));
                assert(replay(out)[keys[i]] == replay(prev)[head[i]]);
            }
        }
    }
}

} // verus!
