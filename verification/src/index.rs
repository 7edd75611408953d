//! The key index: which handle each key has, and what keeps the index in
//! step with the order list.

use vstd::prelude::*;
use vstd::std_specs::hash::obeys_key_model;
use crate::keys::{distinct_keys, has_key, index_of_key};

verus! {

/// What the map asks of its key type: hashing and `==` agree with equality
/// of values, and a clone of a key equals the key.
pub open spec fn lawful_key<K: Clone>() -> bool {
    &&& obeys_key_model::<K>()
    &&& forall|a: K, b: K| #[trigger] cloned(a, b) ==> a == b
}

/// The key index and the order list have the same members: `index` sends the
/// key at each position of `entries` to the handle at that position of
/// `handles`, and holds nothing else.
pub(crate) open spec fn indexed<K, V>(index: Map<K, usize>, entries: Seq<(K, V)>, handles: Seq<usize>) -> bool {
    &&& index.dom().finite()
    &&& index.len() == handles.len()
    &&& entries.len() == handles.len()
    &&& handles.no_duplicates()
    &&& forall|i: int|
        0 <= i < entries.len() ==> index.contains_key((#[trigger] entries[i]).0) && index[entries[i].0]
            == handles[i]
    &&& forall|k: K| #[trigger]
        index.contains_key(k) ==> handles.contains(index[k]) && entries[handles.index_of(index[k])].0
            == k
}

/// What the index knows of the keys: they are distinct, a key is present
/// exactly if it is indexed, and its position is that of its handle.
pub(crate) proof fn lemma_indexed_keys<K, V>(index: Map<K, usize>, entries: Seq<(K, V)>, handles: Seq<usize>)
    requires
        indexed(index, entries, handles),
    ensures
        distinct_keys(entries),
        forall|k: K| has_key(entries, k) <==> #[trigger] index.contains_key(k),
        forall|k: K| #[trigger]
            index.contains_key(k) ==> {
                &&& 0 <= index_of_key(entries, k) < entries.len()
                &&& entries[index_of_key(entries, k)].0 == k
                &&& handles[index_of_key(entries, k)] == index[k]
                &&& handles.index_of(index[k]) == index_of_key(entries, k)
            },
{
    assert forall|k: K| #[trigger] index.contains_key(k) implies has_key(entries, k) && {
        &&& 0 <= index_of_key(entries, k) < entries.len()
        &&& entries[index_of_key(entries, k)].0 == k
        &&& handles[index_of_key(entries, k)] == index[k]
        &&& handles.index_of(index[k]) == index_of_key(entries, k)
    } by {}
}

/// A new key with a new handle may join at the back.
pub(crate) proof fn lemma_indexed_push_back<K, V>(
    index: Map<K, usize>,
    entries: Seq<(K, V)>,
    handles: Seq<usize>,
    key: K,
    value: V,
    handle: usize,
)
    requires
        indexed(index, entries, handles),
        !index.contains_key(key),
        !handles.contains(handle),
    ensures
        indexed(index.insert(key, handle), entries.push((key, value)), handles.push(handle)),
{
    let index2 = index.insert(key, handle);
    let entries2 = entries.push((key, value));
    let handles2 = handles.push(handle);
    let n = handles.len() as int;
    assert(handles2[n] == handle);
    assert forall|k: K| #[trigger] index2.contains_key(k) implies handles2.contains(index2[k])
        && entries2[handles2.index_of(index2[k])].0 == k by {
        if k != key {
            let i = handles.index_of(index[k]);
            assert(handles2[i] == index2[k]);
        }
    }
}

/// A new key with a new handle may join at the front.
pub(crate) proof fn lemma_indexed_push_front<K, V>(
    index: Map<K, usize>,
    entries: Seq<(K, V)>,
    handles: Seq<usize>,
    key: K,
    value: V,
    handle: usize,
)
    requires
        indexed(index, entries, handles),
        !index.contains_key(key),
        !handles.contains(handle),
    ensures
        indexed(index.insert(key, handle), seq![(key, value)] + entries, seq![handle] + handles),
{
    let index2 = index.insert(key, handle);
    let entries2 = seq![(key, value)] + entries;
    let handles2 = seq![handle] + handles;
    assert(handles2[0] == handle);
    assert forall|k: K| #[trigger] index2.contains_key(k) implies handles2.contains(index2[k])
        && entries2[handles2.index_of(index2[k])].0 == k by {
        if k != key {
            let i = handles.index_of(index[k]);
            assert(handles2[i + 1] == index2[k]);
        }
    }
}

/// A key leaves together with its handle and its pair.
pub(crate) proof fn lemma_indexed_remove<K, V>(
    index: Map<K, usize>,
    entries: Seq<(K, V)>,
    handles: Seq<usize>,
    key: K,
)
    requires
        indexed(index, entries, handles),
        index.contains_key(key),
    ensures
        indexed(
            index.remove(key),
            entries.remove(handles.index_of(index[key])),
            handles.remove(handles.index_of(index[key])),
        ),
{
    let i = handles.index_of(index[key]);
    let index2 = index.remove(key);
    let entries2 = entries.remove(i);
    let handles2 = handles.remove(i);
    assert forall|k: K| #[trigger] index2.contains_key(k) implies handles2.contains(index2[k])
        && entries2[handles2.index_of(index2[k])].0 == k by {
        let j1 = handles.index_of(index[k]);
        let j = if j1 < i { j1 } else { j1 - 1 };
        assert(handles2[j] == index2[k]);
    }
}

/// Where clones of keys equal the keys, the index of a list is an index of
/// its clone.
pub(crate) proof fn lemma_indexed_cloned<K: Clone, V>(
    index: Map<K, usize>,
    entries: Seq<(K, V)>,
    copies: Seq<(K, V)>,
    handles: Seq<usize>,
)
    requires
        lawful_key::<K>(),
        indexed(index, entries, handles),
        copies.len() == entries.len(),
        forall|i: int| 0 <= i < entries.len() ==> cloned(entries[i].0, (#[trigger] copies[i]).0),
    ensures
        indexed(index, copies, handles),
        forall|i: int| 0 <= i < entries.len() ==> (#[trigger] copies[i]).0 == entries[i].0,
{
}

} // verus!
