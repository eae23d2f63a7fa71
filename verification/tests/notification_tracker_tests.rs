use toyoterm::notification_tracker::{
    NotificationKey, NotificationTracker, IDLE_WAIT_MS, MAX_TRACKED_NOTIFICATIONS,
};

#[test]
fn notifications_are_tracked_by_id_or_by_number() {
    let mut tracker = NotificationTracker::new();
    assert_eq!(tracker.track(None, None, 0), (NotificationKey::Anonymous(0), None));
    assert_eq!(tracker.track(Some(9), Some(50), 0), (NotificationKey::Identified(9), None));
    assert_eq!(tracker.track(None, Some(0), 0), (NotificationKey::Anonymous(1), None));
    assert_eq!(
        tracker.entries(),
        &vec![
            (NotificationKey::Anonymous(0), None),
            (NotificationKey::Identified(9), Some(50)),
            (NotificationKey::Anonymous(1), None),
        ]
    );
    // Showing an id again replaces the older notification with that id.
    assert_eq!(tracker.track(Some(9), Some(10), 5), (NotificationKey::Identified(9), None));
    assert_eq!(
        tracker.entries(),
        &vec![
            (NotificationKey::Anonymous(0), None),
            (NotificationKey::Anonymous(1), None),
            (NotificationKey::Identified(9), Some(15)),
        ]
    );
    assert!(tracker.forget(NotificationKey::Anonymous(0)));
    assert!(!tracker.forget(NotificationKey::Anonymous(0)));
    assert!(tracker.contains(NotificationKey::Identified(9)));
}

#[test]
fn the_oldest_notification_gives_way_at_the_limit() {
    let mut tracker = NotificationTracker::new();
    for _ in 0..MAX_TRACKED_NOTIFICATIONS {
        assert_eq!(tracker.track(None, None, 0).1, None);
    }
    assert_eq!(tracker.entries().len(), MAX_TRACKED_NOTIFICATIONS);
    let (key, evicted) = tracker.track(Some(1), None, 0);
    assert_eq!(key, NotificationKey::Identified(1));
    assert_eq!(evicted, Some(NotificationKey::Anonymous(0)));
    assert_eq!(tracker.entries().len(), MAX_TRACKED_NOTIFICATIONS);
    assert_eq!(tracker.entries()[0].0, NotificationKey::Anonymous(1));
    // Replacing a tracked id at the limit evicts nothing.
    assert_eq!(tracker.track(Some(1), None, 0).1, None);
    assert_eq!(tracker.entries().len(), MAX_TRACKED_NOTIFICATIONS);
}

#[test]
fn due_notifications_expire_and_bound_the_wait() {
    let mut tracker = NotificationTracker::new();
    assert_eq!(tracker.next_wait(100), IDLE_WAIT_MS);
    tracker.track(Some(1), Some(100), 0);
    tracker.track(Some(2), None, 0);
    tracker.track(Some(3), Some(30), 0);
    tracker.track(Some(4), Some(40), u64::MAX - 5);
    assert_eq!(tracker.next_wait(10), 20);
    assert_eq!(tracker.next_wait(35), 0);
    assert_eq!(tracker.expire(29), Vec::<NotificationKey>::new());
    assert_eq!(tracker.expire(100), vec![NotificationKey::Identified(1), NotificationKey::Identified(3)]);
    assert_eq!(
        tracker.entries(),
        &vec![(NotificationKey::Identified(2), None), (NotificationKey::Identified(4), None)]
    );
    assert_eq!(tracker.next_wait(100), IDLE_WAIT_MS);
}
