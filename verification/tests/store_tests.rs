use counter_hub::store::{Store, StoreError};

fn temp_store() -> Store {
    let db = sled::Config::new().temporary(true).open().unwrap();
    Store::new(db)
}

#[test]
fn get_absent_key() {
    let store = temp_store();
    assert_eq!(store.get(b"counter").unwrap(), None);
}

#[test]
fn initialize_sets_only_when_absent() {
    let mut store = temp_store();
    store.initialize(b"counter", b"0").unwrap();
    assert_eq!(store.get(b"counter").unwrap(), Some(b"0".to_vec()));
    // a second bootstrap never overwrites
    store.initialize(b"counter", b"9").unwrap();
    assert_eq!(store.get(b"counter").unwrap(), Some(b"0".to_vec()));
}

#[test]
fn compare_and_swap_commits_when_expected_matches() {
    let mut store = temp_store();
    store.compare_and_swap(b"counter", None, b"0").unwrap();
    assert_eq!(store.get(b"counter").unwrap(), Some(b"0".to_vec()));
    store.compare_and_swap(b"counter", Some(b"0"), b"1").unwrap();
    assert_eq!(store.get(b"counter").unwrap(), Some(b"1".to_vec()));
}

#[test]
fn compare_and_swap_conflict_mutates_nothing() {
    let mut store = temp_store();
    store.compare_and_swap(b"counter", None, b"5").unwrap();
    // stale expectation: the stored value is no longer absent
    let r = store.compare_and_swap(b"counter", None, b"6");
    assert!(matches!(&r, Err(StoreError::Conflict { current: Some(c) }) if c == b"5"));
    // stale expected value: reports the value current at that moment
    let r = store.compare_and_swap(b"counter", Some(b"4"), b"6");
    assert!(matches!(&r, Err(StoreError::Conflict { current: Some(c) }) if c == b"5"));
    assert_eq!(store.get(b"counter").unwrap(), Some(b"5".to_vec()));
}

#[test]
fn flush_confirms_durability() {
    let mut store = temp_store();
    store.initialize(b"counter", b"0").unwrap();
    assert!(store.flush().is_ok());
}

#[test]
fn keys_are_independent() {
    let mut store = temp_store();
    store.initialize(b"counter", b"0").unwrap();
    store.initialize(b"other", b"7").unwrap();
    store.compare_and_swap(b"other", Some(b"7"), b"8").unwrap();
    assert_eq!(store.get(b"counter").unwrap(), Some(b"0".to_vec()));
    assert_eq!(store.get(b"other").unwrap(), Some(b"8".to_vec()));
}
