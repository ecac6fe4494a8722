use streamwm::subscribers::Subscribers;

#[test]
fn subscriber_publish_delivers_latest_snapshot() {
    let mut subs = Subscribers::default();
    let id = subs.register();

    subs.publish(r#"{"a":1}"#);
    // Wakeup signalled and the latest cell holds the snapshot.
    assert!(subs.try_recv(id));
    assert_eq!(subs.clients[0].latest.as_deref(), Some(r#"{"a":1}"#));

    subs.unregister(id);
    assert!(subs.clients.is_empty());
}

#[test]
fn subscriber_publish_converges_when_client_is_slow() {
    let mut subs = Subscribers::default();
    let _id = subs.register();

    // Publish several snapshots while the client is busy (not draining).
    subs.publish(r#"{"n":1}"#);
    subs.publish(r#"{"n":2}"#);
    subs.publish(r#"{"n":3}"#);

    // Only the newest snapshot is retained; nothing is queued behind it.
    assert_eq!(subs.clients[0].latest.as_deref(), Some(r#"{"n":3}"#));
    assert_eq!(subs.clients.len(), 1);
}

#[test]
fn subscriber_pruned_when_client_thread_exits() {
    let mut subs = Subscribers::default();
    {
        let id = subs.register();
        subs.disconnect(id); // client thread gone
    }
    subs.publish(r#"{"n":1}"#);
    assert!(subs.clients.is_empty());
}

#[test]
fn wakeups_and_snapshots_are_received_once() {
    let mut subs = Subscribers::default();
    let a = subs.register();
    let b = subs.register();
    assert!(a != b);
    assert!(!subs.try_recv(a));
    subs.publish("x");
    subs.publish("y");
    assert!(subs.try_recv(a));
    assert!(!subs.try_recv(a));
    assert_eq!(subs.take(a), Some("y".to_string()));
    assert_eq!(subs.take(a), None);
    assert_eq!(subs.take(b), Some("y".to_string()));
    assert!(subs.try_recv(b));
    assert!(!subs.is_empty());
}

#[test]
fn unregistered_identifiers_are_not_used_again() {
    let mut subs = Subscribers::default();
    let a = subs.register();
    subs.unregister(a);
    assert!(subs.is_empty());
    let b = subs.register();
    assert!(b > a);
    assert!(!subs.try_recv(a));
    assert_eq!(subs.take(a), None);
}
