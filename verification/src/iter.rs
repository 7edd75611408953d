//! Walking a map's entries in order, by reference or by value.

use vstd::prelude::*;
use crate::order::OrderList;

verus! {

/// A walk over the entries of a map, from the front to the back, that hands
/// out references.
///
/// The map is borrowed for as long as the walk lasts, so it cannot change
/// under it.
pub struct Iter<'a, K, V> {
    list: &'a OrderList<K, V>,
    cursor: Option<usize>,
    fuel: usize,
}

impl<'a, K, V> Iter<'a, K, V> {
    /// The entries that the walk has yet to hand out, in order.
    pub closed spec fn view(&self) -> Seq<(K, V)> {
        self.list.walk_from(self.cursor, self.fuel as nat)
    }

    /// A walk of at most `fuel` steps that starts at the front of `list`.
    pub(crate) fn new(list: &'a OrderList<K, V>, fuel: usize) -> (iter: Self)
        ensures
            iter@ == list.walk(fuel as nat),
    {
        Iter { list, cursor: list.start(), fuel }
    }

    /// Hands out the next entry, if one is left.
    pub fn next(&mut self) -> (entry: Option<(&'a K, &'a V)>)
        ensures
            match entry {
                Some((k, v)) => old(self)@.len() > 0 && (*k, *v) == old(self)@[0] && final(self)@ == old(
                    self,
                )@.drop_first(),
                None => old(self)@.len() == 0 && final(self)@ == old(self)@,
            },
    {
        match self.list.step(self.cursor, self.fuel) {
            Some((entry, next)) => {
                self.cursor = next;
                self.fuel = self.fuel - 1;
                Some(entry)
            },
            None => None,
        }
    }
}

/// A walk over the entries of a map, from the front to the back, that hands
/// out the entries themselves. It owns what the map owned.
pub struct IntoIter<K, V> {
    list: OrderList<K, V>,
}

impl<K, V> IntoIter<K, V> {
    /// The entries that the walk has yet to hand out, in order.
    pub closed spec fn view(&self) -> Seq<(K, V)> {
        self.list@
    }

    /// The list that the walk owns is consistent.
    pub closed spec fn wf(&self) -> bool {
        self.list.wf()
    }

    /// A walk that hands out the entries of `list`.
    pub(crate) fn new(list: OrderList<K, V>) -> (iter: Self)
        requires
            list.wf(),
        ensures
            iter.wf(),
            iter@ == list@,
    {
        IntoIter { list }
    }

    /// Hands out the next entry, if one is left.
    pub fn next(&mut self) -> (entry: Option<(K, V)>)
        requires
            old(self).wf(),
        ensures
            final(self).wf(),
            match entry {
                Some(e) => old(self)@.len() > 0 && e == old(self)@[0] && final(self)@ == old(
                    self,
                )@.drop_first(),
                None => old(self)@.len() == 0 && final(self)@ == old(self)@,
            },
    {
        proof {
            self.list.lemma_len();
            self.list.lemma_handles_distinct();
        }
        match self.list.front() {
            Some(handle) => match self.list.remove_node(handle) {
                Some(node) => Some(node.into_entry()),
                None => None,
            },
            None => None,
        }
    }
}

} // verus!
