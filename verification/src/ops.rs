//! What can be done with a map: pushing and popping at both ends, looking
//! up, changing and removing by key, and walking the entries in order.

use vstd::prelude::*;
use std::hash::{BuildHasher, Hash};
use crate::index::{
    lemma_indexed_keys, lemma_indexed_push_back, lemma_indexed_push_front, lemma_indexed_remove,
};
use crate::iter::IntoIter;
use crate::keys::{
    extended, gains_key, has_key, index_of_key, lemma_pushed_keys, lemma_removed_keys,
    loses_key, pushed_back, pushed_front, same_keys,
};
use crate::map::{lemma_view, LinkedHashMap};
use crate::node::Node;

verus! {

broadcast use lemma_view;

impl<K: Hash + Eq + Clone, V, S: BuildHasher> LinkedHashMap<K, V, S> {
    /// The number of entries.
    pub fn len(&self) -> (n: usize)
        requires
            self.wf(),
        ensures
            n == self@.len(),
    {
        self.hash_map.len()
    }

    /// Puts `key` and `value` at the front. A key that is already present
    /// keeps its position and takes the new value; the pair as it now
    /// stands is returned.
    pub fn push_front(&mut self, key: K, value: V) -> (present: Option<(&K, &V)>)
        requires
            old(self).wf(),
        ensures
            final(self).wf(),
            final(self)@ == pushed_front(old(self)@, key, value),
            gains_key(old(self)@, final(self)@, key),
            match present {
                Some((k, v)) => has_key(old(self)@, key) && *k == key && *v == value,
                None => !has_key(old(self)@, key),
            },
    {
        proof {
            lemma_indexed_keys(self.hash_map@, self.list@, self.list.handles());
            lemma_pushed_keys(self@, key, value);
        }
        let found = match self.hash_map.get(&key) {
            Some(handle) => Some(*handle),
            None => None,
        };
        if let Some(handle) = found {
            *self.list.value_mut(handle) = value;
            Some(self.list.entry(handle))
        } else {
            let index_key = key.clone();
            proof {
                assert(cloned(key, index_key));
            }
            let handle = self.list.link_front(key, value);
            proof {
                lemma_indexed_push_front(
                    self.hash_map@,
                    old(self).list@,
                    old(self).list.handles(),
                    key,
                    value,
                    handle,
                );
            }
            self.hash_map.insert(index_key, handle);
            None
        }
    }

    /// Puts `key` and `value` at the back. A key that is already present
    /// keeps its position and takes the new value; the pair as it now
    /// stands is returned.
    pub fn push_back(&mut self, key: K, value: V) -> (present: Option<(&K, &V)>)
        requires
            old(self).wf(),
        ensures
            final(self).wf(),
            final(self)@ == pushed_back(old(self)@, key, value),
            gains_key(old(self)@, final(self)@, key),
            match present {
                Some((k, v)) => has_key(old(self)@, key) && *k == key && *v == value,
                None => !has_key(old(self)@, key),
            },
    {
        proof {
            lemma_indexed_keys(self.hash_map@, self.list@, self.list.handles());
            lemma_pushed_keys(self@, key, value);
        }
        let found = match self.hash_map.get(&key) {
            Some(handle) => Some(*handle),
            None => None,
        };
        if let Some(handle) = found {
            *self.list.value_mut(handle) = value;
            Some(self.list.entry(handle))
        } else {
            let index_key = key.clone();
            proof {
                assert(cloned(key, index_key));
            }
            let handle = self.list.link_back(key, value);
            proof {
                lemma_indexed_push_back(
                    self.hash_map@,
                    old(self).list@,
                    old(self).list.handles(),
                    key,
                    value,
                    handle,
                );
            }
            self.hash_map.insert(index_key, handle);
            None
        }
    }

    /// Puts `key` and `value` at the back, as `push_back` does.
    pub fn insert(&mut self, key: K, value: V) -> (present: Option<(&K, &V)>)
        requires
            old(self).wf(),
        ensures
            final(self).wf(),
            final(self)@ == pushed_back(old(self)@, key, value),
            gains_key(old(self)@, final(self)@, key),
            match present {
                Some((k, v)) => has_key(old(self)@, key) && *k == key && *v == value,
                None => !has_key(old(self)@, key),
            },
    {
        self.push_back(key, value)
    }

    /// The first entry.
    pub fn front(&self) -> (entry: Option<(&K, &V)>)
        requires
            self.wf(),
        ensures
            match entry {
                Some((k, v)) => self@.len() > 0 && (*k, *v) == self@[0],
                None => self@.len() == 0,
            },
    {
        proof {
            self.list.lemma_len();
        }
        match self.list.front() {
            Some(handle) => Some(self.list.entry(handle)),
            None => None,
        }
    }

    /// The last entry.
    pub fn back(&self) -> (entry: Option<(&K, &V)>)
        requires
            self.wf(),
        ensures
            match entry {
                Some((k, v)) => self@.len() > 0 && (*k, *v) == self@[self@.len() - 1],
                None => self@.len() == 0,
            },
    {
        proof {
            self.list.lemma_len();
        }
        match self.list.back() {
            Some(handle) => Some(self.list.entry(handle)),
            None => None,
        }
    }

    /// Takes the first entry's record out of the map.
    pub fn pop_front_node(&mut self) -> (node: Option<Box<Node<K, V>>>)
        requires
            old(self).wf(),
        ensures
            final(self).wf(),
            match node {
                Some(node) => {
                    &&& old(self)@.len() > 0
                    &&& node.entry() == old(self)@[0]
                    &&& final(self)@ == old(self)@.drop_first()
                    &&& loses_key(old(self)@, final(self)@, old(self)@[0].0)
                },
                None => old(self)@.len() == 0 && final(self)@ == old(self)@,
            },
    {
        proof {
            self.list.lemma_len();
        }
        match self.list.front() {
            Some(handle) => self.take_node(handle),
            None => None,
        }
    }

    /// Takes the last entry's record out of the map.
    pub fn pop_back_node(&mut self) -> (node: Option<Box<Node<K, V>>>)
        requires
            old(self).wf(),
        ensures
            final(self).wf(),
            match node {
                Some(node) => {
                    &&& old(self)@.len() > 0
                    &&& node.entry() == old(self)@.last()
                    &&& final(self)@ == old(self)@.drop_last()
                    &&& loses_key(old(self)@, final(self)@, old(self)@.last().0)
                },
                None => old(self)@.len() == 0 && final(self)@ == old(self)@,
            },
    {
        proof {
            self.list.lemma_len();
        }
        match self.list.back() {
            Some(handle) => self.take_node(handle),
            None => None,
        }
    }

    /// Unlinks the record that `handle` names and drops its key from the
    /// index.
    fn take_node(&mut self, handle: usize) -> (node: Option<Box<Node<K, V>>>)
        requires
            old(self).wf(),
            old(self).list.handles().contains(handle),
        ensures
            final(self).wf(),
            node is Some,
            node->0.entry() == old(self)@[old(self).list.handles().index_of(handle)],
            final(self)@ == old(self)@.remove(old(self).list.handles().index_of(handle)),
            loses_key(
                old(self)@,
                final(self)@,
                old(self)@[old(self).list.handles().index_of(handle)].0,
            ),
    {
        let ghost i = self.list.handles().index_of(handle);
        proof {
            self.list.lemma_len();
            lemma_indexed_keys(self.hash_map@, self.list@, self.list.handles());
            lemma_removed_keys(self@, i);
            lemma_indexed_remove(self.hash_map@, self.list@, self.list.handles(), self.list@[i].0);
        }
        match self.list.remove_node(handle) {
            Some(node) => {
                self.hash_map.remove(&node.key);
                Some(Box::new(node))
            },
            None => None,
        }
    }

    /// Removes the first entry and returns it.
    pub fn pop_front(&mut self) -> (entry: Option<(K, V)>)
        requires
            old(self).wf(),
        ensures
            final(self).wf(),
            match entry {
                Some(e) => {
                    &&& old(self)@.len() > 0
                    &&& e == old(self)@[0]
                    &&& final(self)@ == old(self)@.drop_first()
                    &&& loses_key(old(self)@, final(self)@, e.0)
                },
                None => old(self)@.len() == 0 && final(self)@ == old(self)@,
            },
    {
        match self.pop_front_node() {
            Some(node) => Some((*node).into_entry()),
            None => None,
        }
    }

    /// Removes the last entry and returns it.
    pub fn pop_back(&mut self) -> (entry: Option<(K, V)>)
        requires
            old(self).wf(),
        ensures
            final(self).wf(),
            match entry {
                Some(e) => {
                    &&& old(self)@.len() > 0
                    &&& e == old(self)@.last()
                    &&& final(self)@ == old(self)@.drop_last()
                    &&& loses_key(old(self)@, final(self)@, e.0)
                },
                None => old(self)@.len() == 0 && final(self)@ == old(self)@,
            },
    {
        match self.pop_back_node() {
            Some(node) => Some((*node).into_entry()),
            None => None,
        }
    }

    /// Whether `key` is present.
    pub fn contains(&self, key: &K) -> (b: bool)
        requires
            self.wf(),
        ensures
            b == has_key(self@, *key),
    {
        proof {
            lemma_indexed_keys(self.hash_map@, self.list@, self.list.handles());
        }
        self.hash_map.contains_key(key)
    }

    /// The value of `key`.
    pub fn get(&self, key: &K) -> (value: Option<&V>)
        requires
            self.wf(),
        ensures
            match value {
                Some(v) => has_key(self@, *key) && *v == self@[index_of_key(self@, *key)].1,
                None => !has_key(self@, *key),
            },
    {
        proof {
            lemma_indexed_keys(self.hash_map@, self.list@, self.list.handles());
        }
        match self.hash_map.get(key) {
            Some(handle) => Some(self.list.entry(*handle).1),
            None => None,
        }
    }

    /// A mutable reference to the value of `key`. What is written through it
    /// is the value of `key` afterwards; nothing else changes.
    pub fn get_mut(&mut self, key: &K) -> (value: Option<&mut V>)
        requires
            old(self).wf(),
        ensures
            final(self).wf(),
            match value {
                Some(v) => {
                    let i = index_of_key(old(self)@, *key);
                    &&& has_key(old(self)@, *key)
                    &&& *v == old(self)@[i].1
                    &&& final(self)@ == old(self)@.update(i, (*key, *final(v)))
                    &&& same_keys(old(self)@, final(self)@)
                },
                None => !has_key(old(self)@, *key) && final(self)@ == old(self)@,
            },
    {
        proof {
            lemma_indexed_keys(self.hash_map@, self.list@, self.list.handles());
        }
        let found = match self.hash_map.get(key) {
            Some(handle) => Some(*handle),
            None => None,
        };
        match found {
            Some(handle) => Some(self.list.value_mut(handle)),
            None => None,
        }
    }

    /// Removes the entry of `key` and returns it. The other entries keep their
    /// order.
    pub fn remove(&mut self, key: &K) -> (entry: Option<(K, V)>)
        requires
            old(self).wf(),
        ensures
            final(self).wf(),
            match entry {
                Some(e) => {
                    let i = index_of_key(old(self)@, *key);
                    &&& has_key(old(self)@, *key)
                    &&& e == old(self)@[i]
                    &&& final(self)@ == old(self)@.remove(i)
                    &&& loses_key(old(self)@, final(self)@, *key)
                },
                None => !has_key(old(self)@, *key) && final(self)@ == old(self)@,
            },
    {
        proof {
            self.list.lemma_len();
            lemma_indexed_keys(self.hash_map@, self.list@, self.list.handles());
            if self.hash_map@.contains_key(*key) {
                lemma_indexed_remove(self.hash_map@, self.list@, self.list.handles(), *key);
                lemma_removed_keys(self@, index_of_key(self@, *key));
            }
        }
        match self.hash_map.remove(key) {
            Some(handle) => match self.list.remove_node(handle) {
                Some(node) => Some(node.into_entry()),
                None => None,
            },
            None => None,
        }
    }

    /// Removes the entry of `key` and returns it, as `remove` does.
    pub fn take(&mut self, key: &K) -> (entry: Option<(K, V)>)
        requires
            old(self).wf(),
        ensures
            final(self).wf(),
            match entry {
                Some(e) => {
                    let i = index_of_key(old(self)@, *key);
                    &&& has_key(old(self)@, *key)
                    &&& e == old(self)@[i]
                    &&& final(self)@ == old(self)@.remove(i)
                    &&& loses_key(old(self)@, final(self)@, *key)
                },
                None => !has_key(old(self)@, *key) && final(self)@ == old(self)@,
            },
    {
        self.remove(key)
    }

    /// Whether the map has no entries.
    pub fn is_empty(&self) -> (b: bool)
        requires
            self.wf(),
        ensures
            b == (self@.len() == 0),
    {
        proof {
            self.list.lemma_len();
        }
        self.hash_map.is_empty() && self.list.front().is_none() && self.list.back().is_none()
    }

    /// Removes all entries, from the back to the front.
    pub fn clear(&mut self)
        requires
            old(self).wf(),
        ensures
            final(self).wf(),
            final(self)@ == Seq::<(K, V)>::empty(),
    {
        while self.pop_back().is_some()
            invariant
                self.wf(),
            decreases self@.len(),
        {
        }
    }

    /// The entry at position `index`, counted from the front.
    pub fn position(&self, index: usize) -> (entry: Option<(&K, &V)>)
        requires
            self.wf(),
        ensures
            match entry {
                Some((k, v)) => index < self@.len() && (*k, *v) == self@[index as int],
                None => index >= self@.len(),
            },
    {
        proof {
            self.list.lemma_len();
            self.list.lemma_handles_distinct();
        }
        match self.list.handle_at(index) {
            Some(handle) => Some(self.list.entry(handle)),
            None => None,
        }
    }

    /// The key at position `index`, counted from the front, and a mutable
    /// reference to its value. What is written through it is the value of
    /// that key afterwards; nothing else changes.
    pub fn position_mut(&mut self, index: usize) -> (entry: Option<(&K, &mut V)>)
        requires
            old(self).wf(),
        ensures
            final(self).wf(),
            match entry {
                Some((k, v)) => {
                    &&& index < old(self)@.len()
                    &&& (*k, *v) == old(self)@[index as int]
                    &&& final(self)@ == old(self)@.update(index as int, (*k, *final(v)))
                    &&& same_keys(old(self)@, final(self)@)
                },
                None => index >= old(self)@.len() && final(self)@ == old(self)@,
            },
    {
        proof {
            self.list.lemma_len();
            self.list.lemma_handles_distinct();
        }
        match self.list.handle_at(index) {
            Some(handle) => Some(self.list.entry_mut(handle)),
            None => None,
        }
    }

    /// Turns the map into a walk that hands out its entries, from the front
    /// to the back.
    pub fn _into_iter(self) -> (iter: IntoIter<K, V>)
        requires
            self.wf(),
        ensures
            iter.wf(),
            iter@ == self@,
    {
        IntoIter::new(self.list)
    }

    /// Turns the map into a walk that hands out its entries, from the front
    /// to the back.
    pub fn into_iter(self) -> (iter: IntoIter<K, V>)
        requires
            self.wf(),
        ensures
            iter.wf(),
            iter@ == self@,
    {
        self._into_iter()
    }

    /// Pushes each pair of `entries` to the back, in turn.
    pub fn extend(&mut self, entries: Vec<(K, V)>)
        requires
            old(self).wf(),
        ensures
            final(self).wf(),
            final(self)@ == extended(old(self)@, entries@),
    {
        for entry in it: entries
            invariant
                self.wf(),
                it.seq() == entries@,
                self@ == extended(old(self)@, entries@.take(it.index() as int)),
        {
            proof {
                let done = entries@.take(it.index() as int);
                let more = entries@.take(it.index() + 1);
                assert(more.drop_last() =~= done);
            }
            self.insert(entry.0, entry.1);
        }
        proof {
            assert(entries@.take(entries@.len() as int) =~= entries@);
        }
    }
}

} // verus!
