use trader_scout::sorted_map::SortedMap;

#[test]
fn a_read_gives_back_the_last_write_and_keys_stay_ordered() {
    let mut m: SortedMap<String, u32> = SortedMap::new();
    assert!(m.is_empty());
    m.insert("b".to_string(), 1);
    m.insert("a".to_string(), 2);
    m.insert("ab".to_string(), 3);
    m.insert("b".to_string(), 4);
    assert_eq!(m.len(), 3);
    assert_eq!(m.get(&"b".to_string()), Some(&4));
    assert_eq!(m.get(&"a".to_string()), Some(&2));
    assert_eq!(m.get(&"c".to_string()), None);
    assert!(m.contains_key(&"ab".to_string()));
    assert!(!m.contains_key(&"".to_string()));
    let keys: Vec<&str> = m.entries().iter().map(|(k, _)| k.as_str()).collect();
    assert_eq!(keys, vec!["a", "ab", "b"]);
}
