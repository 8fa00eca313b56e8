use logic_builder::name_map::NameMap;

#[test]
fn insert_then_get() {
    let mut m: NameMap<u32> = NameMap::new();
    assert!(m.insert("a".to_string(), 1));
    assert!(m.insert("b".to_string(), 2));
    assert_eq!(m.get(&"a".to_string()), Some(&1));
    assert_eq!(m.get(&"c".to_string()), None);
    assert!(!m.insert("a".to_string(), 3));
    assert_eq!(m.get(&"a".to_string()), Some(&3));
    assert!(m.contains_key(&"b".to_string()));
    assert!(!m.contains_key(&"z".to_string()));
}

#[test]
fn entries_hold_each_name_once() {
    let mut m: NameMap<u32> = NameMap::new();
    m.insert("x".to_string(), 1);
    m.insert("y".to_string(), 2);
    m.insert("x".to_string(), 5);
    let mut e = m.into_entries();
    e.sort();
    assert_eq!(e, vec![("x".to_string(), 5), ("y".to_string(), 2)]);
}
