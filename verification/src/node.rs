//! Entry records and the arena that owns them.
//!
//! Every key/value pair of a map lives in exactly one [`Node`]. Nodes are kept
//! in an [`Arena`] of slots and are referred to by the index of their slot, a
//! *handle*. The order list and the key index only ever hold handles.

use vstd::prelude::*;

verus! {

/// One entry record: a key, its value, and the handles of the neighbouring
/// records in the order list.
pub struct Node<K, V> {
    pub(crate) key: K,
    pub(crate) value: V,
    pub(crate) prev: Option<usize>,
    pub(crate) next: Option<usize>,
}

impl<K, V> Node<K, V> {
    /// The key/value pair that the record holds.
    pub open(crate) spec fn entry(self) -> (K, V) {
        (self.key, self.value)
    }

    /// The record with `value` in place of its own value.
    pub open(crate) spec fn with_value(self, value: V) -> Self {
        Node { value, ..self }
    }

    /// Moves the record into `arena` and returns the handle under which it is
    /// stored from now on. A vacant slot is reused when there is one.
    pub fn into_ptr(_self: Self, arena: &mut Arena<K, V>) -> (handle: usize)
        requires
            old(arena).wf(),
        ensures
            final(arena).wf(),
            !old(arena)@.contains_key(handle),
            final(arena)@ == old(arena)@.insert(handle, _self),
    {
        let handle = match arena.free.pop() {
            Some(slot) => {
                arena.slots[slot] = Some(_self);
                slot
            },
            None => {
                arena.slots.push(Some(_self));
                arena.slots.len() - 1
            },
        };
        proof {
            assert forall|h: usize|
                h < arena.slots@.len() && arena.slots@[h as int] is None implies #[trigger] arena.free@.contains(
                h,
            ) by {
                assert(old(arena).free@.contains(h));
                let j = old(arena).free@.index_of(h);
                assert(arena.free@[j] == h);
            }
        }
        handle
    }

    /// Takes the record apart into its key and value.
    pub fn into_entry(self) -> (e: (K, V))
        ensures
            e == self.entry(),
    {
        (self.key, self.value)
    }
}

impl<K: Clone, V: Clone> Node<K, V> {
    /// `copy` is what a clone of the record may be: it has the record's
    /// links, and its key and value are clones of the record's.
    pub open(crate) spec fn cloned_as(self, copy: Self) -> bool {
        &&& copy.prev == self.prev
        &&& copy.next == self.next
        &&& cloned(self.key, copy.key)
        &&& cloned(self.value, copy.value)
    }
}

impl<K: Clone, V: Clone> Clone for Node<K, V> {
    /// A record with the same links and with clones of the key and the value.
    fn clone(&self) -> (copy: Self)
        ensures
            self.cloned_as(copy),
    {
        Node { key: self.key.clone(), value: self.value.clone(), prev: self.prev, next: self.next }
    }
}

/// The owner of all entry records of one map: a vector of slots, each either
/// occupied by a record or vacant, and the list of the vacant ones.
pub struct Arena<K, V> {
    slots: Vec<Option<Node<K, V>>>,
    free: Vec<usize>,
}

impl<K, V> Arena<K, V> {
    /// The records that the arena holds, by handle.
    pub closed spec fn view(&self) -> Map<usize, Node<K, V>> {
        Map::new(
            |h: usize| h < self.slots@.len() && self.slots@[h as int] is Some,
            |h: usize| self.slots@[h as int]->0,
        )
    }

    /// The free list names exactly the vacant slots, each once.
    pub closed spec fn wf(&self) -> bool {
        &&& self.free@.no_duplicates()
        &&& forall|j: int|
            0 <= j < self.free@.len() ==> (#[trigger] self.free@[j]) < self.slots@.len()
                && self.slots@[self.free@[j] as int] is None
        &&& forall|h: usize|
            h < self.slots@.len() && self.slots@[h as int] is None ==> #[trigger] self.free@.contains(h)
    }

    /// An arena without records.
    pub fn new() -> (arena: Self)
        ensures
            arena.wf(),
            arena@ == Map::<usize, Node<K, V>>::empty(),
    {
        Arena { slots: Vec::new(), free: Vec::new() }
    }

    /// An arena without records, with room for `capacity` of them.
    pub fn with_capacity(capacity: usize) -> (arena: Self)
        ensures
            arena.wf(),
            arena@ == Map::<usize, Node<K, V>>::empty(),
    {
        Arena { slots: Vec::with_capacity(capacity), free: Vec::new() }
    }

    /// Whether `handle` names a record of the arena.
    pub fn contains(&self, handle: usize) -> (b: bool)
        ensures
            b == self@.contains_key(handle),
    {
        handle < self.slots.len() && self.slots[handle].is_some()
    }

    /// The record that `handle` names.
    pub fn node(&self, handle: usize) -> (node: &Node<K, V>)
        requires
            self@.contains_key(handle),
        ensures
            *node == self@[handle],
    {
        match &self.slots[handle] {
            Some(node) => node,
            None => unreached(),
        }
    }

    /// Takes the record that `handle` names out of the arena and leaves its
    /// slot vacant.
    pub(crate) fn release(&mut self, handle: usize) -> (node: Node<K, V>)
        requires
            old(self).wf(),
            old(self)@.contains_key(handle),
        ensures
            final(self).wf(),
            final(self)@ == old(self)@.remove(handle),
            node == old(self)@[handle],
    {
        let taken = self.slots[handle].take();
        self.free.push(handle);
        proof {
            assert forall|h: usize|
                h < self.slots@.len() && self.slots@[h as int] is None implies #[trigger] self.free@.contains(
                h,
            ) by {
                if h != handle {
                    assert(old(self).free@.contains(h));
                    let j = old(self).free@.index_of(h);
                    assert(self.free@[j] == h);
                } else {
                    assert(self.free@[self.free@.len() - 1] == h);
                }
            }
        }
        match taken {
            Some(node) => node,
            None => unreached(),
        }
    }

    /// Sets the link to the previous record in the record that `handle` names.
    pub(crate) fn set_prev(&mut self, handle: usize, prev: Option<usize>)
        requires
            old(self).wf(),
            old(self)@.contains_key(handle),
        ensures
            final(self).wf(),
            final(self)@ == old(self)@.insert(handle, (Node { prev, ..old(self)@[handle] })),
    {
        match &mut self.slots[handle] {
            Some(node) => {
                node.prev = prev;
            },
            None => {},
        }
    }

    /// Sets the link to the next record in the record that `handle` names.
    pub(crate) fn set_next(&mut self, handle: usize, next: Option<usize>)
        requires
            old(self).wf(),
            old(self)@.contains_key(handle),
        ensures
            final(self).wf(),
            final(self)@ == old(self)@.insert(handle, (Node { next, ..old(self)@[handle] })),
    {
        match &mut self.slots[handle] {
            Some(node) => {
                node.next = next;
            },
            None => {},
        }
    }

    /// The key of the record that `handle` names, and a mutable reference to
    /// its value. Whatever is written through the reference is the record's
    /// value afterwards; nothing else changes.
    pub(crate) fn entry_mut(&mut self, handle: usize) -> (entry: (&K, &mut V))
        requires
            old(self).wf(),
            old(self)@.contains_key(handle),
        ensures
            *entry.0 == old(self)@[handle].key,
            *entry.1 == old(self)@[handle].value,
            final(self).wf(),
            final(self)@ == old(self)@.insert(handle, old(self)@[handle].with_value(*final(entry.1))),
    {
        match &mut self.slots[handle] {
            Some(node) => (&node.key, &mut node.value),
            None => unreached(),
        }
    }
}

impl<K: Clone, V: Clone> Clone for Arena<K, V> {
    /// An arena of its own that holds a clone of each record under the
    /// record's handle.
    fn clone(&self) -> (copy: Self)
        ensures
            self.wf() ==> copy.wf(),
            copy@.dom() == self@.dom(),
            forall|h: usize| self@.contains_key(h) ==> self@[h].cloned_as(#[trigger] copy@[h]),
    {
        let mut slots: Vec<Option<Node<K, V>>> = Vec::with_capacity(self.slots.len());
        let mut done: usize = 0;
        while done < self.slots.len()
            invariant
                done <= self.slots@.len(),
                slots@.len() == done,
                forall|h: int|
                    0 <= h < done ==> (#[trigger] slots@[h] is Some) == (self.slots@[h] is Some),
                forall|h: int|
                    0 <= h < done && self.slots@[h] is Some ==> (self.slots@[h]->0).cloned_as(
                        #[trigger] slots@[h]->0,
                    ),
            decreases self.slots@.len() - done,
        {
            let slot = match &self.slots[done] {
                Some(node) => Some(node.clone()),
                None => None,
            };
            slots.push(slot);
            done = done + 1;
        }
        Arena { slots, free: self.free.clone() }
    }
}

} // verus!
