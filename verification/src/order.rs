//! The order list: a doubly linked chain of entry records, threaded through
//! an arena by handle.

use vstd::prelude::*;
use crate::node::{Arena, Node};

verus! {

/// The first handle of `order`, if there is one.
pub open spec fn first(order: Seq<usize>) -> Option<usize> {
    if order.len() == 0 {
        None
    } else {
        Some(order[0])
    }
}

/// The last handle of `order`, if there is one.
pub open spec fn last(order: Seq<usize>) -> Option<usize> {
    if order.len() == 0 {
        None
    } else {
        Some(order[order.len() - 1])
    }
}

/// The handle that stands before position `i` of `order`, if any.
pub open spec fn before(order: Seq<usize>, i: int) -> Option<usize> {
    if i == 0 {
        None
    } else {
        Some(order[i - 1])
    }
}

/// The handle that stands after position `i` of `order`, if any.
pub open spec fn after(order: Seq<usize>, i: int) -> Option<usize> {
    if i + 1 == order.len() {
        None
    } else {
        Some(order[i + 1])
    }
}

/// The key/value pairs of the records that `order` names in `nodes`.
spec fn entries<K, V>(nodes: Map<usize, Node<K, V>>, order: Seq<usize>) -> Seq<(K, V)> {
    Seq::new(order.len(), |i: int| nodes[order[i]].entry())
}

/// `nodes` holds exactly the records that `order` names, each once, and the
/// links of each record name its neighbours in `order`.
spec fn chained<K, V>(nodes: Map<usize, Node<K, V>>, order: Seq<usize>) -> bool {
    &&& order.no_duplicates()
    &&& forall|i: int| 0 <= i < order.len() ==> nodes.contains_key(#[trigger] order[i])
    &&& forall|h: usize| #[trigger] nodes.contains_key(h) ==> order.contains(h)
    &&& forall|i: int| 0 <= i < order.len() ==> (#[trigger] nodes[order[i]]).prev == before(order, i)
    &&& forall|i: int| 0 <= i < order.len() ==> (#[trigger] nodes[order[i]]).next == after(order, i)
}

/// The handle at position `i` of `order`, if `order` is that long.
spec fn at(order: Seq<usize>, i: int) -> Option<usize> {
    if i < order.len() {
        Some(order[i])
    } else {
        None
    }
}

/// What a walk along the `next` links finds that starts at `cursor` and makes
/// at most `fuel` steps: the pairs of the records that it passes. It ends
/// where the cursor names no record of `nodes`.
spec fn walked<K, V>(nodes: Map<usize, Node<K, V>>, cursor: Option<usize>, fuel: nat) -> Seq<(K, V)>
    decreases fuel,
{
    if fuel == 0 || cursor is None || !nodes.contains_key(cursor->0) {
        Seq::empty()
    } else {
        seq![nodes[cursor->0].entry()] + walked(nodes, nodes[cursor->0].next, (fuel - 1) as nat)
    }
}

/// In a chain, a walk from position `i` with enough fuel finds the pairs
/// from `i` on.
proof fn lemma_walked<K, V>(nodes: Map<usize, Node<K, V>>, order: Seq<usize>, i: int, fuel: nat)
    requires
        chained(nodes, order),
        0 <= i <= order.len(),
        fuel >= order.len() - i,
    ensures
        walked(nodes, at(order, i), fuel) == entries(nodes, order).skip(i),
    decreases order.len() - i,
{
    if i < order.len() {
        lemma_walked(nodes, order, i + 1, (fuel - 1) as nat);
    }
}

/// `nodes` after the record at position `i` of `order` was taken out and its
/// two neighbours were linked to each other.
spec fn unlinked<K, V>(nodes: Map<usize, Node<K, V>>, order: Seq<usize>, i: int) -> Map<usize, Node<K, V>> {
    let taken = nodes.remove(order[i]);
    let joined = if i + 1 < order.len() {
        taken.insert(order[i + 1], (Node { prev: before(order, i), ..taken[order[i + 1]] }))
    } else {
        taken
    };
    if i > 0 {
        joined.insert(order[i - 1], (Node { next: after(order, i), ..joined[order[i - 1]] }))
    } else {
        joined
    }
}

/// Taking a record out of a chain and linking its neighbours to each other
/// leaves a chain: that of the other records, in their order.
proof fn lemma_unlinked<K, V>(nodes: Map<usize, Node<K, V>>, order: Seq<usize>, i: int)
    requires
        chained(nodes, order),
        0 <= i < order.len(),
    ensures
        chained(unlinked(nodes, order, i), order.remove(i)),
        entries(unlinked(nodes, order, i), order.remove(i)) == entries(nodes, order).remove(i),
{
    let rest = order.remove(i);
    let after_it = unlinked(nodes, order, i);
    let there = |j: int| if j < i { j } else { j + 1 };
    assert forall|j: int| 0 <= j < rest.len() implies #[trigger] rest[j] == order[there(j)] && order[there(
        j,
    )] != order[i] by {}
    assert forall|a: int, b: int| 0 <= a < rest.len() && 0 <= b < rest.len() && a != b implies rest[a]
        != rest[b] by {
        assert(order[there(a)] != order[there(b)]);
    }
    assert forall|j: int| 0 <= j < rest.len() implies after_it.contains_key(#[trigger] rest[j]) by {
        assert(nodes.contains_key(order[there(j)]));
    }
    assert forall|h: usize| #[trigger] after_it.contains_key(h) implies rest.contains(h) by {
        assert(nodes.contains_key(h));
        let at_old = order.index_of(h);
        let at_new = if at_old < i { at_old } else { at_old - 1 };
        assert(rest[at_new] == h);
    }
    assert forall|j: int| 0 <= j < rest.len() implies (#[trigger] after_it[rest[j]]).prev == before(rest, j)
        && after_it[rest[j]].next == after(rest, j) && after_it[rest[j]].entry() == nodes[order[there(
        j,
    )]].entry() by {
        let old_j = there(j);
        assert(rest[j] == order[old_j]);
        assert(nodes[order[old_j]].prev == before(order, old_j));
        assert(nodes[order[old_j]].next == after(order, old_j));
        if i > 0 {
            assert(nodes.contains_key(order[i - 1]));
            if old_j != i - 1 {
                assert(order[old_j] != order[i - 1]);
            }
        }
        if i + 1 < order.len() {
            assert(nodes.contains_key(order[i + 1]));
            if old_j != i + 1 {
                assert(order[old_j] != order[i + 1]);
            }
        }
        if i > 0 && i + 1 < order.len() {
            assert(order[i - 1] != order[i + 1]);
        }
    }
    assert(entries(after_it, rest) =~= entries(nodes, order).remove(i));
}

/// A doubly linked list of entry records. The records live in an arena; the
/// list knows its two ends, and each record knows its two neighbours.
pub struct OrderList<K, V> {
    arena: Arena<K, V>,
    head: Option<usize>,
    tail: Option<usize>,
    order: Ghost<Seq<usize>>,
}

impl<K, V> OrderList<K, V> {
    /// The handles of the records, from the front of the list to its back.
    pub closed spec fn handles(&self) -> Seq<usize> {
        self.order@
    }

    /// The key/value pairs of the records, from the front of the list to its
    /// back.
    pub closed spec fn view(&self) -> Seq<(K, V)> {
        entries(self.arena@, self.order@)
    }

    /// The chain is consistent in both directions: the arena holds exactly the
    /// records of the list, no record occurs twice, each record's links name
    /// its two neighbours, and the ends of the list are its first and last
    /// records.
    pub closed spec fn wf(&self) -> bool {
        &&& self.arena.wf()
        &&& chained(self.arena@, self.order@)
        &&& self.head == first(self.order@)
        &&& self.tail == last(self.order@)
    }

    /// What a walk along the `next` links finds that starts at `cursor` and
    /// makes at most `fuel` steps. It ends where the cursor names no record.
    /// This is defined of any list, consistent or not.
    pub closed spec fn walk_from(&self, cursor: Option<usize>, fuel: nat) -> Seq<(K, V)> {
        walked(self.arena@, cursor, fuel)
    }

    /// What a walk from the front finds in at most `fuel` steps.
    pub closed spec fn walk(&self, fuel: nat) -> Seq<(K, V)> {
        walked(self.arena@, self.head, fuel)
    }

    /// In a consistent list, a walk with at least as much fuel as there are
    /// records finds all pairs in order.
    pub proof fn lemma_walk(&self, fuel: nat)
        requires
            self.wf(),
            fuel >= self.handles().len(),
        ensures
            self.walk(fuel) == self@,
    {
        lemma_walked(self.arena@, self.order@, 0, fuel);
    }

    /// The list has one handle for each of its pairs.
    pub proof fn lemma_len(&self)
        ensures
            self@.len() == self.handles().len(),
    {
    }

    /// In a consistent list every handle occurs once.
    pub proof fn lemma_handles_distinct(&self)
        requires
            self.wf(),
        ensures
            self.handles().no_duplicates(),
    {
    }

    /// An empty list.
    pub fn new() -> (list: Self)
        ensures
            list.wf(),
            list.handles() == Seq::<usize>::empty(),
            list@ == Seq::<(K, V)>::empty(),
            forall|fuel: nat| #[trigger] list.walk(fuel) == Seq::<(K, V)>::empty(),
    {
        let list = OrderList { arena: Arena::new(), head: None, tail: None, order: Ghost(Seq::empty()) };
        list
    }

    /// An empty list with room for `capacity` records.
    pub fn with_capacity(capacity: usize) -> (list: Self)
        ensures
            list.wf(),
            list.handles() == Seq::<usize>::empty(),
            list@ == Seq::<(K, V)>::empty(),
            forall|fuel: nat| #[trigger] list.walk(fuel) == Seq::<(K, V)>::empty(),
    {
        let list = OrderList {
            arena: Arena::with_capacity(capacity),
            head: None,
            tail: None,
            order: Ghost(Seq::empty()),
        };
        list
    }

    /// The handle of the record at the front.
    pub fn front(&self) -> (handle: Option<usize>)
        requires
            self.wf(),
        ensures
            handle == first(self.handles()),
    {
        self.head
    }

    /// The handle of the record at the back.
    pub fn back(&self) -> (handle: Option<usize>)
        requires
            self.wf(),
        ensures
            handle == last(self.handles()),
    {
        self.tail
    }

    /// Whether `handle` names a record of the list.
    pub fn contains(&self, handle: usize) -> (b: bool)
        requires
            self.wf(),
        ensures
            b == self.handles().contains(handle),
    {
        self.arena.contains(handle)
    }

    /// The handle of the record that follows the one that `handle` names.
    pub fn next(&self, handle: usize) -> (next: Option<usize>)
        requires
            self.wf(),
            self.handles().contains(handle),
        ensures
            next == after(self.handles(), self.handles().index_of(handle)),
    {
        self.arena.node(handle).next
    }

    /// The handle of the record at position `index`, counted from the front.
    pub fn handle_at(&self, index: usize) -> (handle: Option<usize>)
        requires
            self.wf(),
        ensures
            handle == if index < self.handles().len() {
                Some(self.handles()[index as int])
            } else {
                None
            },
    {
        let mut cursor = self.head;
        let mut passed: usize = 0;
        while passed < index && cursor.is_some()
            invariant
                self.wf(),
                passed <= index,
                cursor == if passed < self.order@.len() {
                    Some(self.order@[passed as int])
                } else {
                    None
                },
            decreases index - passed,
        {
            let here = cursor.unwrap();
            cursor = self.next(here);
            passed = passed + 1;
        }
        cursor
    }

    /// Where a walk from the front starts.
    pub fn start(&self) -> (cursor: Option<usize>)
        ensures
            forall|fuel: nat| #[trigger] self.walk_from(cursor, fuel) == self.walk(fuel),
    {
        self.head
    }

    /// One step of a walk that stands at `cursor` with `fuel` steps left: the
    /// key and value of the record there and the place of the next step, or
    /// nothing where the walk ends. The list need not be consistent for
    /// this.
    pub fn step(&self, cursor: Option<usize>, fuel: usize) -> (found: Option<((&K, &V), Option<usize>)>)
        ensures
            match found {
                Some((entry, next)) => fuel > 0 && self.walk_from(cursor, fuel as nat) == seq![
                    (*entry.0, *entry.1),
                ] + self.walk_from(next, (fuel - 1) as nat),
                None => self.walk_from(cursor, fuel as nat) == Seq::<(K, V)>::empty(),
            },
    {
        if fuel == 0 {
            return None;
        }
        match cursor {
            Some(handle) => if self.arena.contains(handle) {
                let node = self.arena.node(handle);
                Some(((&node.key, &node.value), node.next))
            } else {
                None
            },
            None => None,
        }
    }

    /// The key and the value of the record that `handle` names.
    pub fn entry(&self, handle: usize) -> (e: (&K, &V))
        requires
            self.wf(),
            self.handles().contains(handle),
        ensures
            (*e.0, *e.1) == self@[self.handles().index_of(handle)],
    {
        let node = self.arena.node(handle);
        (&node.key, &node.value)
    }

    /// Makes a record of `key` and `value` and links it in at the front.
    pub fn link_front(&mut self, key: K, value: V) -> (handle: usize)
        requires
            old(self).wf(),
        ensures
            final(self).wf(),
            !old(self).handles().contains(handle),
            final(self).handles() == seq![handle] + old(self).handles(),
            final(self)@ == seq![(key, value)] + old(self)@,
    {
        let node = Node { key, value, prev: None, next: self.head };
        let handle = Node::into_ptr(node, &mut self.arena);
        match self.head {
            None => {
                self.tail = Some(handle);
            },
            Some(head) => {
                self.arena.set_prev(head, Some(handle));
            },
        }
        self.head = Some(handle);
        proof {
            self.order@ = seq![handle] + self.order@;
            let old_order = old(self).order@;
            let order = self.order@;
            assert forall|h: usize| #[trigger] self.arena@.contains_key(h) implies order.contains(h) by {
                if h == handle {
                    assert(order[0] == h);
                } else {
                    let j = old_order.index_of(h);
                    assert(order[j + 1] == h);
                }
            }
        }
        handle
    }

    /// Makes a record of `key` and `value` and links it in at the back.
    pub fn link_back(&mut self, key: K, value: V) -> (handle: usize)
        requires
            old(self).wf(),
        ensures
            final(self).wf(),
            !old(self).handles().contains(handle),
            final(self).handles() == old(self).handles().push(handle),
            final(self)@ == old(self)@.push((key, value)),
    {
        let node = Node { key, value, prev: self.tail, next: None };
        let handle = Node::into_ptr(node, &mut self.arena);
        if let Some(tail) = self.tail {
            self.arena.set_next(tail, Some(handle));
        } else {
            self.head = Some(handle);
        }
        self.tail = Some(handle);
        proof {
            self.order@ = self.order@.push(handle);
            let old_order = old(self).order@;
            let order = self.order@;
            let n = old_order.len() as int;
            assert forall|h: usize| #[trigger] self.arena@.contains_key(h) implies order.contains(h) by {
                if h == handle {
                    assert(order[n] == h);
                } else {
                    let j = old_order.index_of(h);
                    assert(order[j] == h);
                }
            }
        }
        handle
    }

    /// Unlinks the record that `handle` names and hands it out. Its two
    /// neighbours are spliced together; the rest of the list keeps its order.
    /// A handle that names no record of the list leaves the list as it is.
    pub fn remove_node(&mut self, handle: usize) -> (node: Option<Node<K, V>>)
        requires
            old(self).wf(),
        ensures
            final(self).wf(),
            match node {
                Some(node) => {
                    let i = old(self).handles().index_of(handle);
                    &&& old(self).handles().contains(handle)
                    &&& final(self).handles() == old(self).handles().remove(i)
                    &&& final(self)@ == old(self)@.remove(i)
                    &&& node.entry() == old(self)@[i]
                },
                None => {
                    &&& !old(self).handles().contains(handle)
                    &&& final(self).handles() == old(self).handles()
                    &&& final(self)@ == old(self)@
                },
            },
    {
        if !self.arena.contains(handle) {
            return None;
        }
        let ghost i = self.order@.index_of(handle);
        proof {
            lemma_unlinked(self.arena@, self.order@, i);
            if i > 0 {
                assert(self.arena@.contains_key(self.order@[i - 1]));
            }
            if i + 1 < self.order@.len() {
                assert(self.arena@.contains_key(self.order@[i + 1]));
            }
        }
        let node = self.arena.release(handle);
        if let Some(head) = self.head {
            if head == handle {
                self.head = node.next;
            }
        }
        if let Some(tail) = self.tail {
            if tail == handle {
                self.tail = node.prev;
            }
        }
        if let Some(next) = node.next {
            self.arena.set_prev(next, node.prev);
        }
        if let Some(prev) = node.prev {
            self.arena.set_next(prev, node.next);
        }
        proof {
            assert(self.arena@ == unlinked(old(self).arena@, old(self).order@, i));
            self.order@ = self.order@.remove(i);
        }
        Some(node)
    }

    /// The key of the record that `handle` names, and a mutable reference to
    /// its value. Whatever is written through the reference is the record's
    /// value afterwards; the key, the order and all other records stay as
    /// they are.
    pub fn entry_mut(&mut self, handle: usize) -> (entry: (&K, &mut V))
        requires
            old(self).wf(),
            old(self).handles().contains(handle),
        ensures
            (*entry.0, *entry.1) == old(self)@[old(self).handles().index_of(handle)],
            final(self).wf(),
            final(self).handles() == old(self).handles(),
            final(self)@ == old(self)@.update(
                old(self).handles().index_of(handle),
                (*entry.0, *final(entry.1)),
            ),
    {
        self.arena.entry_mut(handle)
    }

    /// A mutable reference to the value of the record that `handle` names.
    /// Whatever is written through it is the record's value afterwards; the
    /// key, the order and all other records stay as they are.
    pub fn value_mut(&mut self, handle: usize) -> (value: &mut V)
        requires
            old(self).wf(),
            old(self).handles().contains(handle),
        ensures
            *value == old(self)@[old(self).handles().index_of(handle)].1,
            final(self).wf(),
            final(self).handles() == old(self).handles(),
            final(self)@ == old(self)@.update(
                old(self).handles().index_of(handle),
                (old(self)@[old(self).handles().index_of(handle)].0, *final(value)),
            ),
    {
        self.entry_mut(handle).1
    }
}

impl<K: Clone, V: Clone> Clone for OrderList<K, V> {
    /// A list of its own with a clone of each record, under the same handles
    /// and in the same order.
    fn clone(&self) -> (copy: Self)
        ensures
            copy.handles() == self.handles(),
            self.wf() ==> copy.wf(),
            self.wf() ==> forall|i: int|
                0 <= i < self@.len() ==> cloned(self@[i].0, (#[trigger] copy@[i]).0) && cloned(
                    self@[i].1,
                    copy@[i].1,
                ),
    {
        OrderList {
            arena: self.arena.clone(),
            head: self.head,
            tail: self.tail,
            order: Ghost(self.order@),
        }
    }
}

} // verus!
