use linked_hash_map_rs::node::{Arena, Node};
use linked_hash_map_rs::order::OrderList;

fn pairs(list: &OrderList<i32, &'static str>) -> Vec<(i32, &'static str)> {
    let mut seen = Vec::new();
    let mut cursor = list.front();
    while let Some(handle) = cursor {
        let (k, v) = list.entry(handle);
        seen.push((*k, *v));
        cursor = list.next(handle);
    }
    seen
}

#[test]
fn links_at_both_ends() {
    let mut list = OrderList::new();
    assert_eq!(list.front(), None);
    assert_eq!(list.back(), None);
    let b = list.link_back(2, "b");
    let a = list.link_front(1, "a");
    let c = list.link_back(3, "c");
    assert_eq!(list.front(), Some(a));
    assert_eq!(list.back(), Some(c));
    assert_eq!(list.next(a), Some(b));
    assert_eq!(list.next(b), Some(c));
    assert_eq!(list.next(c), None);
    assert_eq!(pairs(&list), vec![(1, "a"), (2, "b"), (3, "c")]);
    assert_eq!(list.handle_at(0), Some(a));
    assert_eq!(list.handle_at(2), Some(c));
    assert_eq!(list.handle_at(3), None);
}

#[test]
fn unlinking_splices_the_neighbours() {
    let mut list = OrderList::with_capacity(4);
    let a = list.link_back(1, "a");
    let b = list.link_back(2, "b");
    let c = list.link_back(3, "c");
    assert!(list.contains(b));
    let node = list.remove_node(b).unwrap();
    assert_eq!(node.into_entry(), (2, "b"));
    assert!(!list.contains(b));
    assert_eq!(list.next(a), Some(c));
    assert_eq!(pairs(&list), vec![(1, "a"), (3, "c")]);
    assert_eq!(list.remove_node(a).map(|n| n.into_entry()), Some((1, "a")));
    assert_eq!(list.front(), Some(c));
    assert_eq!(list.back(), Some(c));
    assert_eq!(list.remove_node(c).map(|n| n.into_entry()), Some((3, "c")));
    assert_eq!(list.front(), None);
    assert_eq!(list.back(), None);
}

#[test]
fn unlinking_a_detached_record_does_nothing() {
    let mut list = OrderList::new();
    let a = list.link_back(1, "a");
    let b = list.link_back(2, "b");
    assert!(list.remove_node(a).is_some());
    assert!(list.remove_node(a).is_none());
    assert!(list.remove_node(b + 100).is_none());
    assert_eq!(pairs(&list), vec![(2, "b")]);
}

#[test]
fn values_are_written_in_place() {
    let mut list = OrderList::new();
    let a = list.link_back(1, "a");
    let b = list.link_back(2, "b");
    *list.value_mut(a) = "A";
    let (key, value) = list.entry_mut(b);
    assert_eq!(*key, 2);
    *value = "B";
    assert_eq!(pairs(&list), vec![(1, "A"), (2, "B")]);
}

#[test]
fn arena_hands_out_fresh_handles_and_reuses_vacant_slots() {
    let mut list: OrderList<i32, &'static str> = OrderList::new();
    let a = list.link_back(1, "a");
    let b = list.link_back(2, "b");
    assert_ne!(a, b);
    list.remove_node(a);
    let c = list.link_back(3, "c");
    assert_eq!(c, a);
    assert_eq!(pairs(&list), vec![(2, "b"), (3, "c")]);
    let mut arena: Arena<i32, i32> = Arena::with_capacity(2);
    assert!(!arena.contains(0));
    let mut other: OrderList<i32, i32> = OrderList::new();
    let h = other.link_back(7, 70);
    let node: Node<i32, i32> = other.remove_node(h).unwrap();
    let stored = Node::into_ptr(node, &mut arena);
    assert!(arena.contains(stored));
    assert!(!arena.contains(stored + 1));
    let empty: Arena<i32, i32> = Arena::new();
    assert!(!empty.contains(stored));
}

#[test]
fn a_walk_steps_from_the_start_until_the_fuel_or_the_list_ends() {
    let mut list = OrderList::new();
    assert_eq!(list.start(), None);
    assert!(list.step(list.start(), 5).is_none());
    let a = list.link_back(1, "a");
    let b = list.link_back(2, "b");
    assert_eq!(list.start(), Some(a));
    let (first, next) = list.step(list.start(), 2).unwrap();
    assert_eq!(first, (&1, &"a"));
    assert_eq!(next, Some(b));
    let (second, end) = list.step(next, 1).unwrap();
    assert_eq!(second, (&2, &"b"));
    assert_eq!(end, None);
    assert!(list.step(end, 1).is_none());
    assert!(list.step(next, 0).is_none());
    assert!(list.step(Some(b + 7), 3).is_none());
}
