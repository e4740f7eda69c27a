use counter_hub::coordinator::{compute_next, increment, subscribe_with_snapshot, CounterError};
use counter_hub::hub::Hub;
use counter_hub::store::Store;

const KEY: &[u8] = b"counter";
const TOPIC: &[u8] = b"counter";

fn temp_store() -> Store {
    let db = sled::Config::new().temporary(true).open().unwrap();
    Store::new(db)
}

fn bootstrapped_store(initial: &[u8]) -> Store {
    let mut store = temp_store();
    store.initialize(KEY, initial).unwrap();
    store.flush().unwrap();
    store
}

#[test]
fn compute_next_decides_each_case() {
    assert_eq!(compute_next(&None), Err(CounterError::NotFound));
    assert_eq!(compute_next(&Some(b"0".to_vec())), Ok(1));
    assert_eq!(compute_next(&Some(b"41".to_vec())), Ok(42));
    assert_eq!(compute_next(&Some(b"abc".to_vec())), Err(CounterError::Malformed));
    assert_eq!(compute_next(&Some(b"007".to_vec())), Err(CounterError::Malformed));
    assert_eq!(
        compute_next(&Some(b"18446744073709551615".to_vec())),
        Err(CounterError::Overflow)
    );
}

#[test]
fn increment_commits_flushes_and_publishes() {
    let mut store = bootstrapped_store(b"0");
    let mut hub = Hub::new();
    let id = subscribe_with_snapshot(&store, &mut hub, KEY, TOPIC.to_vec()).unwrap();
    let out = increment(&mut store, &mut hub, KEY, TOPIC, 8).unwrap();
    assert_eq!(out.value, 1);
    assert!(out.durable);
    assert_eq!(store.get(KEY).unwrap(), Some(b"1".to_vec()));
    assert_eq!(hub.take_pending(id).unwrap(), vec![b"0".to_vec(), b"1".to_vec()]);
}

#[test]
fn increment_without_bootstrap_reports_not_found() {
    let mut store = temp_store();
    let mut hub = Hub::new();
    let r = increment(&mut store, &mut hub, KEY, TOPIC, 8);
    assert_eq!(r, Err(CounterError::NotFound));
    assert_eq!(hub.subscriber_count(TOPIC), 0);
}

#[test]
fn increment_on_malformed_value_mutates_nothing() {
    let mut store = temp_store();
    store.compare_and_swap(KEY, None, b"not a number").unwrap();
    let mut hub = Hub::new();
    let id = subscribe_with_snapshot(&store, &mut hub, KEY, TOPIC.to_vec()).unwrap();
    let r = increment(&mut store, &mut hub, KEY, TOPIC, 8);
    assert_eq!(r, Err(CounterError::Malformed));
    assert_eq!(store.get(KEY).unwrap(), Some(b"not a number".to_vec()));
    // nothing was published
    assert_eq!(hub.take_pending(id).unwrap(), vec![b"not a number".to_vec()]);
}

#[test]
fn increment_at_largest_value_reports_overflow() {
    let mut store = bootstrapped_store(b"18446744073709551615");
    let mut hub = Hub::new();
    let r = increment(&mut store, &mut hub, KEY, TOPIC, 8);
    assert_eq!(r, Err(CounterError::Overflow));
    assert_eq!(
        store.get(KEY).unwrap(),
        Some(b"18446744073709551615".to_vec())
    );
}

#[test]
fn subscribe_without_bootstrap_reports_not_found() {
    let store = temp_store();
    let mut hub = Hub::new();
    let r = subscribe_with_snapshot(&store, &mut hub, KEY, TOPIC.to_vec());
    assert_eq!(r, Err(CounterError::NotFound));
    assert_eq!(hub.subscriber_count(TOPIC), 0);
}

#[test]
fn snapshot_is_received_before_later_publishes() {
    let store = bootstrapped_store(b"7");
    let mut store = store;
    let mut hub = Hub::new();
    let id = subscribe_with_snapshot(&store, &mut hub, KEY, TOPIC.to_vec()).unwrap();
    increment(&mut store, &mut hub, KEY, TOPIC, 8).unwrap();
    let got = hub.take_pending(id).unwrap();
    assert_eq!(got, vec![b"7".to_vec(), b"8".to_vec()]);
}

#[test]
fn three_increments_reach_three_and_both_observers_see_them_in_order() {
    // initial value "0"; three increment calls racing on the same store all
    // resolve; two observers connected before any increment
    let mut store = bootstrapped_store(b"0");
    let mut hub = Hub::new();
    let first = subscribe_with_snapshot(&store, &mut hub, KEY, TOPIC.to_vec()).unwrap();
    let second = subscribe_with_snapshot(&store, &mut hub, KEY, TOPIC.to_vec()).unwrap();
    let mut committed = Vec::new();
    for _ in 0..3 {
        committed.push(increment(&mut store, &mut hub, KEY, TOPIC, 8).unwrap().value);
    }
    assert_eq!(committed, vec![1, 2, 3]);
    assert_eq!(store.get(KEY).unwrap(), Some(b"3".to_vec()));
    for id in [first, second] {
        let seen = hub.take_pending(id).unwrap();
        let values: Vec<u64> = seen
            .iter()
            .map(|b| counter_hub::codec::parse_u64(b).unwrap())
            .collect();
        // starts at the snapshot 0, strictly increasing, ends at 3
        assert_eq!(values.first(), Some(&0));
        assert!(values.windows(2).all(|w| w[0] < w[1]));
        assert_eq!(values.last(), Some(&3));
    }
}

#[test]
fn retry_budget_is_respected_under_exclusive_access() {
    // with exclusive access no conflict can occur, so one attempt suffices
    let mut store = bootstrapped_store(b"0");
    let mut hub = Hub::new();
    let out = increment(&mut store, &mut hub, KEY, TOPIC, 1).unwrap();
    assert_eq!(out.value, 1);
}
