use block_hub::hub::Hub;

#[test]
fn subscribe_registers_and_count_grows() {
    let mut hub = Hub::new(8);
    assert_eq!(hub.subscriber_count(), 0);
    let a = hub.subscribe();
    let b = hub.subscribe();
    assert_ne!(a, b);
    assert_eq!(hub.subscriber_count(), 2);
}

#[test]
fn subscriber_observes_events_in_publication_order() {
    let mut hub = Hub::new(8);
    let s = hub.subscribe();
    hub.publish(&"first".to_string());
    hub.publish(&"second".to_string());
    assert_eq!(hub.next_event(s), Some("first".to_string()));
    assert_eq!(hub.next_event(s), Some("second".to_string()));
    assert_eq!(hub.next_event(s), None);
}

#[test]
fn late_subscriber_sees_no_replay() {
    let mut hub = Hub::new(8);
    hub.publish(&"early".to_string());
    let s = hub.subscribe();
    assert_eq!(hub.next_event(s), None);
    hub.publish(&"late".to_string());
    assert_eq!(hub.next_event(s), Some("late".to_string()));
}

#[test]
fn disconnect_leaves_other_subscriber_receiving() {
    let mut hub = Hub::new(8);
    let first = hub.subscribe();
    let second = hub.subscribe();
    hub.publish(&"one".to_string());
    let before = hub.subscriber_count();
    assert!(hub.unsubscribe(first));
    assert_eq!(hub.subscriber_count(), before - 1);
    hub.publish(&"two".to_string());
    assert_eq!(hub.next_event(second), Some("one".to_string()));
    assert_eq!(hub.next_event(second), Some("two".to_string()));
}

#[test]
fn unsubscribe_is_idempotent() {
    let mut hub = Hub::new(4);
    let s = hub.subscribe();
    assert!(hub.unsubscribe(s));
    assert!(!hub.unsubscribe(s));
    assert_eq!(hub.subscriber_count(), 0);
}

#[test]
fn unsubscribe_unknown_handle_is_noop() {
    let mut hub = Hub::new(4);
    hub.subscribe();
    assert!(!hub.unsubscribe(12345));
    assert_eq!(hub.subscriber_count(), 1);
}

#[test]
fn full_queue_drops_for_owner_only() {
    let mut hub = Hub::new(1);
    let stalled = hub.subscribe();
    let live = hub.subscribe();
    hub.publish(&"e1".to_string());
    // `live` drains; `stalled` never does.
    assert_eq!(hub.next_event(live), Some("e1".to_string()));
    hub.publish(&"e2".to_string());
    // The stalled consumer's full queue dropped e2 for itself alone.
    assert_eq!(hub.next_event(live), Some("e2".to_string()));
    assert_eq!(hub.next_event(stalled), Some("e1".to_string()));
    assert_eq!(hub.next_event(stalled), None);
}

#[test]
fn unknown_handle_receives_nothing() {
    let mut hub = Hub::new(4);
    hub.subscribe();
    hub.publish(&"ev".to_string());
    assert_eq!(hub.next_event(777), None);
}
