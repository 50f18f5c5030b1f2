use ssh_fleet::name_map::NameMap;

fn text(s: &str) -> String {
    s.to_string()
}

#[test]
fn a_new_mapping_is_empty() {
    let map: NameMap<String> = NameMap::new();
    assert_eq!(map.len(), 0);
    assert!(map.get(&text("a")).is_none());
    assert!(!map.contains_key(&text("a")));
    assert!(map.entry(0).is_none());
}

#[test]
fn a_stored_value_is_found_under_its_name() {
    let mut map: NameMap<String> = NameMap::new();
    map.insert(text("a"), text("1"));
    map.insert(text("b"), text("2"));
    assert_eq!(map.len(), 2);
    assert_eq!(map.get(&text("a")), Some(&text("1")));
    assert_eq!(map.get(&text("b")), Some(&text("2")));
    assert!(map.contains_key(&text("b")));
    assert_eq!(map.position(&text("b")), Some(1));
    assert_eq!(map.position(&text("c")), None);
}

#[test]
fn the_last_value_stored_under_a_name_counts() {
    let mut map: NameMap<String> = NameMap::new();
    map.insert(text("a"), text("1"));
    map.insert(text("b"), text("2"));
    map.insert(text("a"), text("3"));
    assert_eq!(map.len(), 2);
    assert_eq!(map.get(&text("a")), Some(&text("3")));
    // The name keeps its place.
    assert_eq!(map.entry(0), Some((&text("a"), &text("3"))));
    assert_eq!(map.entry(1), Some((&text("b"), &text("2"))));
    assert_eq!(map.entry(2), None);
}

#[test]
fn a_removed_name_is_gone_and_the_others_keep_their_order() {
    let mut map: NameMap<String> = NameMap::new();
    map.insert(text("a"), text("1"));
    map.insert(text("b"), text("2"));
    map.insert(text("c"), text("3"));
    assert_eq!(map.remove(&text("b")), Some(text("2")));
    assert_eq!(map.remove(&text("b")), None);
    assert_eq!(map.len(), 2);
    assert_eq!(map.entry(0), Some((&text("a"), &text("1"))));
    assert_eq!(map.entry(1), Some((&text("c"), &text("3"))));
}
