use linked_hash_map_rs::{LinkedHashMap, LinkedHashMapVisitor};

fn pairs(map: &LinkedHashMap<i32, String>) -> Vec<(i32, String)> {
    let mut seen = Vec::new();
    let mut iter = map.iter();
    while let Some((k, v)) = iter.next() {
        seen.push((*k, v.clone()));
    }
    seen
}

#[test]
fn visit_unit_gives_an_empty_map() {
    let map: LinkedHashMap<i32, String> = LinkedHashMapVisitor::new().visit_unit();
    assert!(map.is_empty());
}

#[test]
fn visit_map_keeps_the_order_read() {
    let entries = vec![(1, "a".to_string()), (2, "b".to_string())];
    let map = LinkedHashMapVisitor::new().visit_map(Some(2), entries);
    assert_eq!(map.front(), Some((&1i32, &"a".to_owned())));
    assert_eq!(map.back(), Some((&2i32, &"b".to_owned())));
    assert_eq!(map.len(), 2);
}

#[test]
fn visit_map_first_seen_position_last_seen_value() {
    let entries = vec![
        (3, "c".to_string()),
        (1, "a".to_string()),
        (3, "C".to_string()),
        (2, "b".to_string()),
    ];
    let map = LinkedHashMapVisitor::new().visit_map(None, entries);
    assert_eq!(
        pairs(&map),
        vec![(3, "C".to_string()), (1, "a".to_string()), (2, "b".to_string())]
    );
}

#[test]
fn written_out_and_read_back_is_the_same_map() {
    let mut map = LinkedHashMap::new();
    map.push_back(2, "b".to_string());
    map.push_front(1, "a".to_string());
    map.push_back(3, "c".to_string());
    map.remove(&2);
    map.push_back(2, "B".to_string());
    let written = pairs(&map);
    let read = LinkedHashMapVisitor::new().visit_map(Some(written.len()), written);
    assert!(read == map);
    assert_eq!(pairs(&read), pairs(&map));
}
