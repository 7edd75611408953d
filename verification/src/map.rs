//! The map: a key index over an order list. What a map is, how one is made,
//! copied and compared.

use vstd::prelude::*;
use vstd::std_specs::cmp::{PartialEqSpec, PartialEqSpecImpl};
use vstd::std_specs::hash::builds_valid_hashers;
use std::collections::hash_map::RandomState;
use std::collections::HashMap;
use std::hash::{BuildHasher, Hash, Hasher};
use crate::index::{indexed, lawful_key, lemma_indexed_cloned, lemma_indexed_keys};
use crate::iter::Iter;
use crate::keys::{distinct_keys, lemma_pairwise_eq_step, pairwise_eq};
use crate::order::OrderList;

verus! {

/// `std::collections::HashMap::with_hasher`. Claimed of it: the map that it
/// makes holds no key.
pub assume_specification<K, V, S>[ HashMap::<K, V, S>::with_hasher ](hash_builder: S) -> (table: HashMap<K, V, S>)
    ensures
        table@ == (Map::<K, V>::empty()),
;

/// `std::collections::HashMap::with_capacity_and_hasher`. Claimed of it: the
/// map that it makes holds no key, whatever the capacity asked for.
pub assume_specification<K, V, S>[ HashMap::<K, V, S>::with_capacity_and_hasher ](
    capacity: usize,
    hasher: S,
) -> (table: HashMap<K, V, S>)
    ensures
        table@ == (Map::<K, V>::empty()),
;

/// A hash map that keeps its entries in the order in which they were pushed.
///
/// Each entry is one record of the order list; the key index maps the key to
/// the record's handle.
#[verifier::reject_recursive_types(S)]
pub struct LinkedHashMap<K, V, S = RandomState> {
    pub(crate) hash_map: HashMap<K, usize, S>,
    pub(crate) list: OrderList<K, V>,
}

impl<K, V, S> View for LinkedHashMap<K, V, S> {
    type V = Seq<(K, V)>;

    /// The entries, from the front to the back: what a walk through the
    /// order list finds in as many steps as the index has keys.
    closed spec fn view(&self) -> Seq<(K, V)> {
        self.list.walk(self.hash_map.len() as nat)
    }
}

/// In a well-formed map the walk finds the pairs of the order list, all of
/// them and in order.
pub(crate) broadcast proof fn lemma_view<K: Hash + Eq + Clone, V, S: BuildHasher>(map: &LinkedHashMap<K, V, S>)
    requires
        map.wf(),
    ensures
        (#[trigger] map.view()) == map.list@,
{
    map.list.lemma_len();
    map.list.lemma_walk(map.hash_map.len() as nat);
}

impl<K: Hash + Eq + Clone, V, S: BuildHasher> LinkedHashMap<K, V, S> {
    /// The key type and the hasher are lawful, the order list is consistent,
    /// and the key index has exactly the members of the order list.
    pub open(crate) spec fn wf(&self) -> bool {
        &&& lawful_key::<K>()
        &&& builds_valid_hashers::<S>()
        &&& self.list.wf()
        &&& indexed(self.hash_map@, self.list@, self.list.handles())
    }

    /// The keys of a well-formed map are distinct.
    pub proof fn lemma_distinct_keys(&self)
        requires
            self.wf(),
        ensures
            distinct_keys(self@),
    {
        lemma_view(self);
        lemma_indexed_keys(self.hash_map@, self.list@, self.list.handles());
    }

    /// A walk over the entries, from the front to the back.
    pub fn iter(&self) -> (iter: Iter<'_, K, V>)
        ensures
            iter@ == self@,
    {
        Iter::new(&self.list, self.hash_map.len())
    }

    /// An empty map that hashes with `hasher`.
    pub fn with_hasher(hasher: S) -> (map: LinkedHashMap<K, V, S>)
        ensures
            map@ == Seq::<(K, V)>::empty(),
            lawful_key::<K>() && builds_valid_hashers::<S>() ==> map.wf(),
    {
        LinkedHashMap { hash_map: HashMap::with_hasher(hasher), list: OrderList::new() }
    }

    /// An empty map that hashes with `hasher` and has room for `capacity`
    /// entries.
    pub fn with_capacity_and_hasher(capacity: usize, hasher: S) -> (map: Self)
        ensures
            map@ == Seq::<(K, V)>::empty(),
            lawful_key::<K>() && builds_valid_hashers::<S>() ==> map.wf(),
    {
        LinkedHashMap {
            hash_map: HashMap::with_capacity_and_hasher(capacity, hasher),
            list: OrderList::with_capacity(capacity),
        }
    }
}

impl<K: Hash + Eq + Clone, V> LinkedHashMap<K, V, RandomState> {
    /// An empty map.
    pub fn new() -> (map: Self)
        ensures
            map@ == Seq::<(K, V)>::empty(),
            lawful_key::<K>() ==> map.wf(),
    {
        LinkedHashMap { hash_map: HashMap::new(), list: OrderList::new() }
    }

    /// An empty map with room for `capacity` entries.
    pub fn with_capacity(capacity: usize) -> (map: Self)
        ensures
            map@ == Seq::<(K, V)>::empty(),
            lawful_key::<K>() ==> map.wf(),
    {
        LinkedHashMap {
            hash_map: HashMap::with_capacity(capacity),
            list: OrderList::with_capacity(capacity),
        }
    }
}

impl<K: Hash + Eq + Clone, V, S: BuildHasher + Default> Default for LinkedHashMap<K, V, S> {
    /// An empty map that hashes with the default hasher of `S`.
    fn default() -> (map: Self)
        ensures
            map@ == Seq::<(K, V)>::empty(),
            lawful_key::<K>() && builds_valid_hashers::<S>() ==> map.wf(),
    {
        LinkedHashMap { hash_map: HashMap::default(), list: OrderList::new() }
    }
}

impl<K: Hash + Eq + Clone, V: Clone, S: BuildHasher + Clone> Clone for LinkedHashMap<K, V, S> {
    /// A map of its own with a clone of each entry, in the same order. The
    /// two maps share nothing.
    fn clone(&self) -> (copy: Self)
        ensures
            self.wf() ==> copy.wf(),
            self.wf() ==> copy@.len() == self@.len(),
            self.wf() ==> forall|i: int|
                0 <= i < self@.len() ==> (#[trigger] copy@[i]).0 == self@[i].0 && cloned(
                    self@[i].1,
                    copy@[i].1,
                ),
    {
        let copy = LinkedHashMap { hash_map: self.hash_map.clone(), list: self.list.clone() };
        proof {
            if self.wf() {
                self.list.lemma_len();
                copy.list.lemma_len();
                lemma_indexed_cloned(self.hash_map@, self.list@, copy.list@, self.list.handles());
                lemma_view(self);
                lemma_view(&copy);
            }
        }
        copy
    }
}

impl<K: Hash + Eq + Clone, V: PartialEq, S: BuildHasher> PartialEq for LinkedHashMap<K, V, S> {
    /// Whether the two maps have equal entries in the same order.
    fn eq(&self, other: &Self) -> (same: bool) {
        let mut left = self.iter();
        let mut right = other.iter();
        loop
            invariant
                K::obeys_eq_spec() && V::obeys_eq_spec() ==> pairwise_eq(self@, other@) == pairwise_eq(
                    left@,
                    right@,
                ),
            decreases left@.len(),
        {
            let ghost ahead_left = left@;
            let ghost ahead_right = right@;
            match (left.next(), right.next()) {
                (Some((k1, v1)), Some((k2, v2))) => {
                    proof {
                        assert(ahead_left =~= seq![ahead_left[0]] + left@);
                        assert(ahead_right =~= seq![ahead_right[0]] + right@);
                        lemma_pairwise_eq_step(ahead_left[0], left@, ahead_right[0], right@);
                    }
                    if !(*k1 == *k2 && *v1 == *v2) {
                        return false;
                    }
                },
                (None, None) => {
                    return true;
                },
                _ => {
                    return false;
                },
            }
        }
    }
}

impl<K: Hash + Eq + Clone, V: PartialEq, S: BuildHasher> PartialEqSpecImpl for LinkedHashMap<K, V, S> {
    /// `==` on maps means what is said below where `==` on keys and on
    /// values means what their types say.
    open spec fn obeys_eq_spec() -> bool {
        K::obeys_eq_spec() && V::obeys_eq_spec()
    }

    /// As many entries, and at each position equal keys and equal values.
    open spec fn eq_spec(&self, other: &Self) -> bool {
        pairwise_eq(self@, other@)
    }
}

impl<K: Hash + Eq + Clone, V: Eq, S: BuildHasher> Eq for LinkedHashMap<K, V, S> {}

/// `std::hash::Hash::hash` of a pair of references: feeds the key and then
/// the value into `state`. Nothing is claimed of the state afterwards.
#[verifier::external_body]
fn hash_entry<K: Hash, V: Hash, H: Hasher>(key: &K, value: &V, state: &mut H) {
    (key, value).hash(state)
}

impl<K: Hash + Eq + Clone, V: Hash, S: BuildHasher> Hash for LinkedHashMap<K, V, S> {
    /// Feeds the entries into `state`, from the front to the back, each as
    /// the pair of its key and its value.
    fn hash<H: Hasher>(&self, state: &mut H) {
        let mut iter = self.iter();
        loop
            decreases iter@.len(),
        {
            match iter.next() {
                Some((k, v)) => {
                    hash_entry(k, v, state);
                },
                None => {
                    return ;
                },
            }
        }
    }
}

} // verus!
