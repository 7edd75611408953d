//! Rebuilding a map from the pairs that a serialized form yields.
//!
//! Written out, a map is its pairs in order. Read back, each pair is
//! inserted in the order in which it is read, so a key that occurs again
//! keeps its first position and takes the later value.

use vstd::prelude::*;
use std::hash::Hash;
use std::marker::PhantomData;
use crate::keys::extended;
use crate::index::lawful_key;
use crate::map::LinkedHashMap;

verus! {

/// Builds a map from what a deserializer has read.
pub struct LinkedHashMapVisitor<K, V> {
    marker: PhantomData<(K, V)>,
}

impl<K: Hash + Eq + Clone, V> LinkedHashMapVisitor<K, V> {
    /// A visitor.
    pub fn new() -> (visitor: Self) {
        LinkedHashMapVisitor { marker: PhantomData }
    }

    /// The map for an input that holds nothing: an empty one.
    pub fn visit_unit(self) -> (map: LinkedHashMap<K, V>)
        ensures
            map@ == Seq::<(K, V)>::empty(),
            lawful_key::<K>() ==> map.wf(),
    {
        LinkedHashMap::new()
    }

    /// The map for an input that holds `entries`, read in this order. Where
    /// the input tells its size beforehand, `size_hint` is that size.
    pub fn visit_map(self, size_hint: Option<usize>, entries: Vec<(K, V)>) -> (map: LinkedHashMap<K, V>)
        requires
            lawful_key::<K>(),
        ensures
            map.wf(),
            map@ == extended(Seq::<(K, V)>::empty(), entries@),
    {
        let mut values = LinkedHashMap::with_capacity(size_hint.unwrap_or(0));
        values.extend(entries);
        values
    }
}

} // verus!
