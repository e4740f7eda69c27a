use counter_hub::hub::Hub;

const TOPIC: &[u8] = b"counter";

#[test]
fn new_hub_is_empty() {
    let hub = Hub::new();
    assert_eq!(hub.subscriber_count(TOPIC), 0);
    assert!(hub.subscriber_ids().is_empty());
    assert!(hub.has_capacity());
}

#[test]
fn subscribe_primes_snapshot_first() {
    let mut hub = Hub::new();
    let id = hub.subscribe(TOPIC.to_vec(), b"5".to_vec());
    assert_eq!(hub.subscriber_count(TOPIC), 1);
    // the snapshot is delivered before anything published later
    hub.publish(TOPIC, b"6");
    let got = hub.take_pending(id).unwrap();
    assert_eq!(got, vec![b"5".to_vec(), b"6".to_vec()]);
    // the queue was drained
    assert_eq!(hub.take_pending(id).unwrap(), Vec::<Vec<u8>>::new());
}

#[test]
fn publish_delivers_in_order_exactly_once() {
    let mut hub = Hub::new();
    let a = hub.subscribe(TOPIC.to_vec(), b"0".to_vec());
    let b = hub.subscribe(TOPIC.to_vec(), b"0".to_vec());
    let other = hub.subscribe(b"other".to_vec(), b"x".to_vec());
    hub.publish(TOPIC, b"1");
    hub.publish(TOPIC, b"2");
    assert_eq!(
        hub.take_pending(a).unwrap(),
        vec![b"0".to_vec(), b"1".to_vec(), b"2".to_vec()]
    );
    assert_eq!(
        hub.take_pending(b).unwrap(),
        vec![b"0".to_vec(), b"1".to_vec(), b"2".to_vec()]
    );
    // a subscription on another topic sees none of it
    assert_eq!(hub.take_pending(other).unwrap(), vec![b"x".to_vec()]);
}

#[test]
fn subscriber_ids_are_fresh_and_in_registration_order() {
    let mut hub = Hub::new();
    let a = hub.subscribe(TOPIC.to_vec(), b"0".to_vec());
    let b = hub.subscribe(TOPIC.to_vec(), b"0".to_vec());
    assert_ne!(a, b);
    assert_eq!(hub.subscriber_ids(), vec![a, b]);
}

#[test]
fn unsubscribe_removes_exactly_one() {
    let mut hub = Hub::new();
    let a = hub.subscribe(TOPIC.to_vec(), b"0".to_vec());
    let b = hub.subscribe(TOPIC.to_vec(), b"0".to_vec());
    hub.unsubscribe(a);
    assert_eq!(hub.subscriber_count(TOPIC), 1);
    assert_eq!(hub.take_pending(a), None);
    // a later publish neither fails nor reaches the removed subscription
    hub.publish(TOPIC, b"1");
    assert_eq!(hub.take_pending(a), None);
    assert_eq!(hub.take_pending(b).unwrap(), vec![b"0".to_vec(), b"1".to_vec()]);
}

#[test]
fn unsubscribe_is_idempotent() {
    let mut hub = Hub::new();
    let a = hub.subscribe(TOPIC.to_vec(), b"0".to_vec());
    hub.unsubscribe(a);
    hub.unsubscribe(a);
    assert_eq!(hub.subscriber_count(TOPIC), 0);
    // an identity is never reused for a later subscription
    let b = hub.subscribe(TOPIC.to_vec(), b"0".to_vec());
    assert_ne!(a, b);
}
