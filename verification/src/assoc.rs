//! Association sequences: entries keyed by a device address, where the
//! last entry of a key is the binding that counts.
//!
//! Both the device registry and the per-window accumulation map are such
//! sequences; this module gives them one notion of key position.

use vstd::prelude::*;

verus! {

/// The position of the last entry keyed `key`, or -1 when no entry is.
pub open spec fn key_index<T>(entries: Seq<(Seq<char>, T)>, key: Seq<char>) -> int
    decreases entries.len(),
{
    if entries.len() == 0 {
        -1
    } else if entries.last().0 == key {
        entries.len() - 1
    } else {
        key_index(entries.drop_last(), key)
    }
}

/// An entry keyed `key` stands at `j` and none stands later: then `j` is
/// the key's position.
pub proof fn lemma_key_index_at<T>(entries: Seq<(Seq<char>, T)>, key: Seq<char>, j: int)
    requires
        0 <= j < entries.len(),
        entries[j].0 == key,
        forall|k: int| j < k < entries.len() ==> (#[trigger] entries[k].0) != key,
    ensures
        key_index(entries, key) == j,
    decreases entries.len(),
{
    if j < entries.len() - 1 {
        assert(entries[entries.len() - 1].0 != key);
        assert(entries.drop_last()[j] == entries[j]);
        lemma_key_index_at(entries.drop_last(), key, j);
    }
}

/// A key under which no entry stands has no position.
pub proof fn lemma_key_index_none<T>(entries: Seq<(Seq<char>, T)>, key: Seq<char>)
    requires
        forall|k: int| 0 <= k < entries.len() ==> (#[trigger] entries[k].0) != key,
    ensures
        key_index(entries, key) == -1,
    decreases entries.len(),
{
    if entries.len() > 0 {
        lemma_key_index_none(entries.drop_last(), key);
    }
}

/// A key's position, when there is one, is a position of the sequence,
/// and the entry there carries the key.
pub proof fn lemma_key_index_bounds<T>(entries: Seq<(Seq<char>, T)>, key: Seq<char>)
    ensures
        -1 <= key_index(entries, key) < entries.len(),
        key_index(entries, key) >= 0 ==> entries[key_index(entries, key)].0 == key,
    decreases entries.len(),
{
    if entries.len() > 0 && entries.last().0 != key {
        lemma_key_index_bounds(entries.drop_last(), key);
        if key_index(entries, key) >= 0 {
            assert(entries.drop_last()[key_index(entries, key)] == entries[key_index(
                entries,
                key,
            )]);
        }
    }
}

} // verus!
