use kvs::memory::KvStore;

#[test]
fn doc_example_set_then_get() {
    let mut store = KvStore::new();
    store.set("key".to_owned(), "value".to_owned());
    let value = store.get("key".to_owned());
    assert_eq!(Some("value".to_owned()), value);
}

#[test]
fn get_of_missing_key_is_none() {
    let store = KvStore::new();
    assert_eq!(store.get("absent".to_owned()), None);
}

#[test]
fn set_overwrites_and_keeps_other_keys() {
    let mut store = KvStore::default();
    store.set("a".to_owned(), "1".to_owned());
    store.set("b".to_owned(), "2".to_owned());
    store.set("a".to_owned(), "3".to_owned());
    assert_eq!(store.get("a".to_owned()), Some("3".to_owned()));
    assert_eq!(store.get("b".to_owned()), Some("2".to_owned()));
}

#[test]
fn remove_then_get_is_none_and_others_stay() {
    let mut store = KvStore::new();
    store.set("a".to_owned(), "1".to_owned());
    store.set("b".to_owned(), "2".to_owned());
    store.remove("a".to_owned());
    assert_eq!(store.get("a".to_owned()), None);
    assert_eq!(store.get("b".to_owned()), Some("2".to_owned()));
    store.remove("missing".to_owned());
    assert_eq!(store.get("b".to_owned()), Some("2".to_owned()));
}

#[test]
fn non_ascii_keys_are_distinct() {
    let mut store = KvStore::new();
    store.set("clé".to_owned(), "é".to_owned());
    store.set("cle".to_owned(), "e".to_owned());
    assert_eq!(store.get("clé".to_owned()), Some("é".to_owned()));
    assert_eq!(store.get("cle".to_owned()), Some("e".to_owned()));
}
