//! What follows from the contracts of the map's operations, whatever the
//! keys and values.

use vstd::prelude::*;
use std::hash::{BuildHasher, Hash};
use crate::keys::{
    distinct_keys, extended, has_key, index_of_key, lemma_pushed_keys, pushed_back, pushed_front,
};
use crate::map::LinkedHashMap;

verus! {

/// Among distinct keys a key has one position: the key at position `i` is
/// found at `i` and nowhere else.
pub proof fn lemma_index_of_key<K, V>(entries: Seq<(K, V)>, i: int)
    requires
        distinct_keys(entries),
        0 <= i < entries.len(),
    ensures
        has_key(entries, entries[i].0),
        index_of_key(entries, entries[i].0) == i,
{
}

/// Pushing an absent key to the back appends its pair: there is one entry
/// more, what was there stays where it was, and the keys stay distinct.
pub proof fn lemma_push_back_absent<K, V>(entries: Seq<(K, V)>, key: K, value: V)
    requires
        !has_key(entries, key),
    ensures
        pushed_back(entries, key, value) == entries.push((key, value)),
        pushed_back(entries, key, value).len() == entries.len() + 1,
        distinct_keys(entries) ==> distinct_keys(pushed_back(entries, key, value)),
{
    lemma_pushed_keys(entries, key, value);
}

/// Inserting pairs with distinct keys into an empty map, one after the
/// other, gives exactly those pairs in the order in which they were
/// inserted: as many entries as there were keys.
pub proof fn lemma_insertion_order<K, V>(more: Seq<(K, V)>)
    requires
        distinct_keys(more),
    ensures
        extended(Seq::<(K, V)>::empty(), more) == more,
        extended(Seq::<(K, V)>::empty(), more).len() == more.len(),
    decreases more.len(),
{
    if more.len() > 0 {
        lemma_insertion_order(more.drop_last());
    }
}

/// Pushing a key that is already present, to either end, changes neither the
/// number of entries nor the position of any key; the pair of that key holds
/// the new value, and all other pairs are as they were.
pub proof fn lemma_push_present<K, V>(entries: Seq<(K, V)>, key: K, value: V)
    requires
        distinct_keys(entries),
        has_key(entries, key),
    ensures
        pushed_front(entries, key, value) == pushed_back(entries, key, value),
        pushed_back(entries, key, value).len() == entries.len(),
        forall|i: int|
            0 <= i < entries.len() ==> (#[trigger] pushed_back(entries, key, value)[i]).0 == entries[i].0,
        index_of_key(pushed_back(entries, key, value), key) == index_of_key(entries, key),
        pushed_back(entries, key, value)[index_of_key(entries, key)].1 == value,
        forall|i: int|
            0 <= i < entries.len() && i != index_of_key(entries, key) ==> #[trigger] pushed_back(
                entries,
                key,
                value,
            )[i] == entries[i],
        distinct_keys(pushed_back(entries, key, value)),
{
    lemma_pushed_keys(entries, key, value);
    assert(pushed_back(entries, key, value)[index_of_key(entries, key)].0 == key);
}

/// A push to an empty map and the pop from the same end undo each other:
/// the pop gives back exactly the pair that was pushed and leaves the map
/// empty.
pub proof fn lemma_push_then_pop<K, V>(key: K, value: V)
    ensures
        pushed_back(Seq::<(K, V)>::empty(), key, value).last() == (key, value),
        pushed_back(Seq::<(K, V)>::empty(), key, value).drop_last() == Seq::<(K, V)>::empty(),
        pushed_front(Seq::<(K, V)>::empty(), key, value).first() == (key, value),
        pushed_front(Seq::<(K, V)>::empty(), key, value).drop_first() == Seq::<(K, V)>::empty(),
{
    lemma_push_on_empty(key, value);
}

/// The same of any map that lacks the key: after the push to an end, the pop
/// from that end gives back the pair that was pushed and leaves what was
/// there before.
pub proof fn lemma_push_absent_then_pop<K, V>(entries: Seq<(K, V)>, key: K, value: V)
    requires
        !has_key(entries, key),
    ensures
        pushed_back(entries, key, value).last() == (key, value),
        pushed_back(entries, key, value).drop_last() == entries,
        pushed_front(entries, key, value).first() == (key, value),
        pushed_front(entries, key, value).drop_first() == entries,
{
}

/// An empty map holds no key, so a push puts one entry there. A map that was
/// cleared is empty as a new one is, and what an operation does depends on
/// the entries alone: an insert after a clear is an insert into a new map.
pub proof fn lemma_push_on_empty<K, V>(key: K, value: V)
    ensures
        !has_key(Seq::<(K, V)>::empty(), key),
        pushed_back(Seq::<(K, V)>::empty(), key, value) == seq![(key, value)],
        pushed_front(Seq::<(K, V)>::empty(), key, value) == seq![(key, value)],
{
}

/// Writing the entries of a map out in order and building a map from what
/// was written gives the same entries in the same order.
pub proof fn lemma_round_trip<K: Hash + Eq + Clone, V, S: BuildHasher>(map: &LinkedHashMap<K, V, S>)
    requires
        map.wf(),
    ensures
        extended(Seq::<(K, V)>::empty(), map@) == map@,
{
    map.lemma_distinct_keys();
    lemma_insertion_order(map@);
}

} // verus!
