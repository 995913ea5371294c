use kvs::StrMap;

#[test]
fn insert_returns_previous_value() {
    let mut m: StrMap<u64> = StrMap::new();
    assert_eq!(m.insert("k".to_owned(), 1), None);
    assert_eq!(m.insert("k".to_owned(), 2), Some(1));
    assert_eq!(m.get(&"k".to_owned()), Some(&2));
    assert!(m.contains_key(&"k".to_owned()));
}

#[test]
fn remove_returns_value_once() {
    let mut m: StrMap<u64> = StrMap::new();
    m.insert("x".to_owned(), 7);
    m.insert("y".to_owned(), 8);
    assert_eq!(m.remove(&"x".to_owned()), Some(7));
    assert_eq!(m.remove(&"x".to_owned()), None);
    assert_eq!(m.get(&"y".to_owned()), Some(&8));
    assert!(!m.contains_key(&"x".to_owned()));
}

