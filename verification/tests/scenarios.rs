use linked_hash_map_rs::LinkedHashMap;
use std::hash::{Hash, Hasher};

fn pairs(map: &LinkedHashMap<i32, &'static str>) -> Vec<(i32, &'static str)> {
    let mut seen = Vec::new();
    let mut iter = map.iter();
    while let Some((k, v)) = iter.next() {
        seen.push((*k, *v));
    }
    seen
}

#[test]
fn pushes_at_both_ends_then_removals() {
    let mut map = LinkedHashMap::new();
    assert!(map.push_back(1, "a").is_none());
    assert!(map.push_back(2, "b").is_none());
    assert!(map.push_front(0, "z").is_none());
    assert_eq!(pairs(&map), vec![(0, "z"), (1, "a"), (2, "b")]);
    assert_eq!(map.get(&1), Some(&"a"));
    assert_eq!(map.remove(&1), Some((1, "a")));
    assert_eq!(pairs(&map), vec![(0, "z"), (2, "b")]);
    assert_eq!(map.pop_back(), Some((2, "b")));
    assert_eq!(map.len(), 1);
}

#[test]
fn insert_of_present_key_replaces_in_place() {
    let mut map = LinkedHashMap::new();
    map.insert(1, "a");
    assert_eq!(map.insert(1, "B"), Some((&1, &"B")));
    assert_eq!(map.len(), 1);
    assert_eq!(map.get(&1), Some(&"B"));
    assert_eq!(pairs(&map), vec![(1, "B")]);
}

#[test]
fn distinct_inserts_keep_insertion_order() {
    let mut map = LinkedHashMap::new();
    let keys = [5, 3, 9, 1, 7, 2];
    for k in keys {
        assert!(map.insert(k, "x").is_none());
    }
    assert_eq!(map.len(), keys.len());
    let seen: Vec<i32> = pairs(&map).into_iter().map(|(k, _)| k).collect();
    assert_eq!(seen, keys.to_vec());
}

#[test]
fn present_key_keeps_position_at_either_end() {
    let mut map = LinkedHashMap::new();
    map.insert(1, "a");
    map.insert(2, "b");
    map.insert(3, "c");
    assert_eq!(map.push_front(3, "C"), Some((&3, &"C")));
    assert_eq!(map.push_back(1, "A"), Some((&1, &"A")));
    assert_eq!(map.len(), 3);
    assert_eq!(pairs(&map), vec![(1, "A"), (2, "b"), (3, "C")]);
}

#[test]
fn push_then_pop_on_empty_map() {
    let mut map = LinkedHashMap::new();
    map.push_front(4, "d");
    assert_eq!(map.pop_front(), Some((4, "d")));
    assert!(map.is_empty());
    map.push_back(5, "e");
    assert_eq!(map.pop_back(), Some((5, "e")));
    assert!(map.is_empty());
    assert_eq!(map.len(), 0);
}

#[test]
fn remove_of_absent_key_changes_nothing() {
    let mut map = LinkedHashMap::new();
    map.insert(1, "a");
    map.insert(2, "b");
    assert_eq!(map.remove(&7), None);
    assert_eq!(map.take(&7), None);
    assert_eq!(map.len(), 2);
    assert_eq!(pairs(&map), vec![(1, "a"), (2, "b")]);
}

#[test]
fn cleared_map_behaves_as_new() {
    let mut map = LinkedHashMap::new();
    map.insert(1, "a");
    map.insert(2, "b");
    map.insert(3, "c");
    map.clear();
    assert!(map.is_empty());
    assert_eq!(map.len(), 0);
    assert_eq!(map.front(), None);
    assert_eq!(map.back(), None);
    assert_eq!(map.get(&1), None);
    assert!(map.insert(2, "B").is_none());
    assert_eq!(pairs(&map), vec![(2, "B")]);
    assert_eq!(map.len(), 1);
}

#[test]
fn pops_on_empty_map_give_nothing() {
    let mut map: LinkedHashMap<i32, &'static str> = LinkedHashMap::new();
    assert_eq!(map.pop_front(), None);
    assert_eq!(map.pop_back(), None);
    assert!(map.pop_front_node().is_none());
    assert!(map.pop_back_node().is_none());
    assert_eq!(map.front(), None);
    assert_eq!(map.back(), None);
    assert_eq!(map.position(0), None);
    assert!(map.position_mut(0).is_none());
    assert!(map.get_mut(&1).is_none());
    assert!(!map.contains(&1));
    assert!(map.is_empty());
}

#[test]
fn pop_nodes_hand_out_the_end_records() {
    let mut map = LinkedHashMap::new();
    map.insert(1, "a");
    map.insert(2, "b");
    map.insert(3, "c");
    let first = map.pop_front_node().unwrap();
    assert_eq!(first.into_entry(), (1, "a"));
    let last = map.pop_back_node().unwrap();
    assert_eq!(last.into_entry(), (3, "c"));
    assert_eq!(pairs(&map), vec![(2, "b")]);
    assert!(!map.contains(&1));
    assert!(!map.contains(&3));
}

#[test]
fn removed_slots_are_used_again() {
    let mut map = LinkedHashMap::new();
    for round in 0..50 {
        map.insert(round, "x");
        map.insert(round + 1000, "y");
        assert_eq!(map.remove(&round), Some((round, "x")));
    }
    assert_eq!(map.len(), 50);
    let seen: Vec<i32> = pairs(&map).into_iter().map(|(k, _)| k).collect();
    let expected: Vec<i32> = (0..50).map(|r| r + 1000).collect();
    assert_eq!(seen, expected);
    assert_eq!(map.front(), Some((&1000, &"y")));
    assert_eq!(map.back(), Some((&1049, &"y")));
}

#[test]
fn removal_in_the_middle_and_at_the_ends() {
    let mut map = LinkedHashMap::new();
    for k in 1..=5 {
        map.insert(k, "v");
    }
    assert_eq!(map.remove(&3), Some((3, "v")));
    assert_eq!(pairs(&map), vec![(1, "v"), (2, "v"), (4, "v"), (5, "v")]);
    assert_eq!(map.remove(&1), Some((1, "v")));
    assert_eq!(map.front(), Some((&2, &"v")));
    assert_eq!(map.remove(&5), Some((5, "v")));
    assert_eq!(map.back(), Some((&4, &"v")));
    assert_eq!(pairs(&map), vec![(2, "v"), (4, "v")]);
    assert_eq!(map.position(1), Some((&4, &"v")));
}

#[test]
fn get_mut_writes_through() {
    let mut map = LinkedHashMap::new();
    map.insert(1, "a");
    map.insert(2, "b");
    *map.get_mut(&2).unwrap() = "B";
    assert_eq!(pairs(&map), vec![(1, "a"), (2, "B")]);
    let (key, value) = map.position_mut(0).unwrap();
    assert_eq!(*key, 1);
    *value = "A";
    assert_eq!(pairs(&map), vec![(1, "A"), (2, "B")]);
}

#[test]
fn owned_keys_and_values() {
    let mut map: LinkedHashMap<String, Vec<u8>> = LinkedHashMap::new();
    map.insert("one".to_string(), vec![1]);
    map.insert("two".to_string(), vec![2, 2]);
    map.push_front("zero".to_string(), vec![]);
    assert_eq!(map.get(&"two".to_string()), Some(&vec![2, 2]));
    assert_eq!(map.insert("one".to_string(), vec![9]).map(|(k, v)| (k.clone(), v.clone())), Some(("one".to_string(), vec![9])));
    assert_eq!(map.pop_front(), Some(("zero".to_string(), vec![])));
    assert_eq!(map.remove(&"one".to_string()), Some(("one".to_string(), vec![9])));
    assert_eq!(map.len(), 1);
}

#[test]
fn extend_pushes_in_turn() {
    let mut map = LinkedHashMap::new();
    map.insert(2, "b");
    map.extend(vec![(1, "a"), (2, "B"), (3, "c"), (1, "A")]);
    assert_eq!(pairs(&map), vec![(2, "B"), (1, "A"), (3, "c")]);
}

#[test]
fn into_iter_hands_out_owned_pairs_in_order() {
    let mut map = LinkedHashMap::new();
    map.push_back(2, "b".to_string());
    map.push_front(1, "a".to_string());
    map.push_back(3, "c".to_string());
    let mut iter = map.into_iter();
    assert_eq!(iter.next(), Some((1, "a".to_string())));
    assert_eq!(iter.next(), Some((2, "b".to_string())));
    assert_eq!(iter.next(), Some((3, "c".to_string())));
    assert_eq!(iter.next(), None);
    assert_eq!(iter.next(), None);
}

#[test]
fn clone_is_independent() {
    let mut map = LinkedHashMap::new();
    map.insert(1, "a".to_string());
    map.insert(2, "b".to_string());
    let mut copy = map.clone();
    assert!(map == copy);
    copy.insert(3, "c".to_string());
    *copy.get_mut(&1).unwrap() = "A".to_string();
    assert_eq!(map.len(), 2);
    assert_eq!(map.get(&1), Some(&"a".to_string()));
    assert_eq!(copy.len(), 3);
    assert!(map != copy);
}

#[test]
fn equality_minds_the_order() {
    let mut left = LinkedHashMap::new();
    left.insert(1, "a");
    left.insert(2, "b");
    let mut right = LinkedHashMap::new();
    right.insert(2, "b");
    right.insert(1, "a");
    assert!(left != right);
    assert!(left == left);
    let mut same = LinkedHashMap::new();
    same.insert(1, "a");
    same.insert(2, "b");
    assert_eq!(left, same);
    same.insert(2, "c");
    assert_ne!(left, same);
    same.remove(&2);
    assert_ne!(left, same);
}

#[test]
fn maps_with_a_given_hasher_start_empty_and_work() {
    let hasher = std::collections::hash_map::RandomState::new();
    let mut map = LinkedHashMap::with_hasher(hasher);
    assert!(map.is_empty());
    assert_eq!(map.len(), 0);
    map.insert(1, "a");
    map.push_front(0, "z");
    let mut sized = LinkedHashMap::with_capacity_and_hasher(16, std::collections::hash_map::RandomState::new());
    assert!(sized.is_empty());
    sized.insert(0, "z");
    sized.insert(1, "a");
    assert!(map == sized);
    let copy = map.clone();
    assert!(copy == map);
    assert_eq!(copy.get(&0), Some(&"z"));
}

#[test]
fn equal_maps_hash_alike_and_order_matters() {
    let mut left = LinkedHashMap::new();
    left.insert(1, 10);
    left.insert(2, 20);
    let mut same = LinkedHashMap::new();
    same.insert(1, 10);
    same.insert(2, 20);
    let mut turned = LinkedHashMap::new();
    turned.insert(2, 20);
    turned.insert(1, 10);
    let digest = |map: &LinkedHashMap<i32, i32>| {
        let mut state = std::collections::hash_map::DefaultHasher::new();
        map.hash(&mut state);
        state.finish()
    };
    let mut by_hand = std::collections::hash_map::DefaultHasher::new();
    (&1, &10).hash(&mut by_hand);
    (&2, &20).hash(&mut by_hand);
    assert_eq!(digest(&left), by_hand.finish());
    assert_eq!(digest(&left), digest(&same));
    assert_ne!(digest(&left), digest(&turned));
}

#[test]
fn debug_shows_entries_in_order() {
    let mut map = LinkedHashMap::new();
    assert_eq!(format!("{:?}", map), "{}");
    map.insert("b".to_string(), Some(2));
    map.insert("a".to_string(), None);
    map.push_front("c".to_string(), Some(3));
    assert_eq!(format!("{:?}", map), r#"{"c": Some(3), "b": Some(2), "a": None}"#);
    map.clear();
    map.insert("c".to_string(), Some(3));
    let mut sorted = std::collections::BTreeMap::new();
    sorted.insert("c".to_string(), Some(3));
    assert_eq!(format!("{:?}", map), format!("{:?}", sorted));
    assert_eq!(format!("{:#?}", map), format!("{:#?}", sorted));
}

#[test]
fn a_map_can_be_a_key() {
    let mut inner = LinkedHashMap::new();
    inner.insert(1, 2);
    let mut outer = std::collections::HashSet::new();
    assert!(outer.insert(inner.clone()));
    assert!(!outer.insert(inner.clone()));
    inner.insert(3, 4);
    assert!(outer.insert(inner));
    assert_eq!(outer.len(), 2);
}

fn sendable<T: Send>() {}

fn shareable<T: Sync>() {}

#[test]
fn a_map_may_be_handed_to_another_thread_and_shared() {
    sendable::<LinkedHashMap<i32, String>>();
    shareable::<LinkedHashMap<i32, String>>();
    sendable::<linked_hash_map_rs::IntoIter<i32, String>>();
    sendable::<linked_hash_map_rs::Iter<'static, i32, String>>();
}
