use rust_server::text_map::TextMap;

#[test]
fn text_map_keeps_entries_in_order_of_arrival() {
    let mut map: TextMap<u32> = TextMap::new();
    assert_eq!(map.len(), 0);
    assert_eq!(map.insert("b".to_string(), 2), None);
    assert_eq!(map.insert("a".to_string(), 1), None);
    assert_eq!(map.insert("c".to_string(), 3), None);
    assert_eq!(map.insert("a".to_string(), 10), Some(1));
    assert_eq!(map.len(), 3);
    assert_eq!(map.key_at(0), "b");
    assert_eq!(map.key_at(1), "a");
    assert_eq!(*map.value_at(1), 10);
    assert_eq!(map.get("a"), Some(&10));
    assert_eq!(map.get("z"), None);
    assert!(map.contains_key("c"));
    assert!(!map.contains_key(""));
    *map.get_mut("c").unwrap() = 30;
    assert_eq!(map.get("c"), Some(&30));
    assert!(map.get_mut("z").is_none());
    assert_eq!(map.remove("b"), Some(2));
    assert_eq!(map.remove("b"), None);
    assert_eq!(map.len(), 2);
    assert_eq!(map.key_at(0), "a");
    assert_eq!(map.find(&"c".to_string()), Some(1));
    assert_eq!(map.find(&"b".to_string()), None);
}
