use procmon::notifier::NotificationBus;

#[test]
fn a_burst_of_notifies_collapses_to_one_dispatch() {
    let mut bus = NotificationBus::new();
    assert!(!bus.dispatch_pending());
    for _ in 0..10_000 {
        bus.notify();
    }
    // However many notifications arrived, exactly one dispatch is queued.
    let mut dispatches = 0;
    while bus.dispatch_pending() {
        bus.begin_dispatch();
        dispatches += 1;
    }
    assert_eq!(dispatches, 1);
}

#[test]
fn notify_during_dispatch_schedules_one_fresh_dispatch() {
    let mut bus = NotificationBus::new();
    bus.notify();
    assert!(bus.dispatch_pending());
    bus.begin_dispatch();
    // The permit was released when the dispatch began: a burst arriving
    // while the callbacks run schedules exactly one more dispatch.
    for _ in 0..10_000 {
        bus.notify();
    }
    let mut dispatches = 1;
    while bus.dispatch_pending() {
        bus.begin_dispatch();
        dispatches += 1;
    }
    assert_eq!(dispatches, 2);
}

#[test]
fn every_notify_leaves_a_dispatch_pending() {
    let mut bus = NotificationBus::new();
    for _ in 0..5 {
        bus.notify();
        assert!(bus.dispatch_pending());
    }
}

#[test]
fn dispatch_reaches_current_subscribers_only() {
    let mut bus = NotificationBus::new();
    let first = bus.subscribe();
    let second = bus.subscribe();
    let first_id = first.id;
    let second_id = second.id;
    assert_ne!(first_id, second_id);

    bus.notify();
    let ids = bus.begin_dispatch();
    assert_eq!(ids, vec![first_id, second_id]);

    bus.unsubscribe(first);
    bus.notify();
    let ids = bus.begin_dispatch();
    assert_eq!(ids, vec![second_id]);
}
