use std::sync::Arc;

use varde::notifications::state::{
    Action, CloseReason, Incoming, Notification, Picture, Store, Thumbnail, Urgency,
    MAX_NOTIFICATIONS, POPUP_TIMEOUT_MS,
};

const NOW: u64 = 1_000_000;

fn incoming(summary: &str) -> Incoming {
    Incoming {
        summary: summary.into(),
        ..Incoming::default()
    }
}

fn notification(store: &Store, id: u32) -> Option<(Notification, bool)> {
    store
        .notifications()
        .into_iter()
        .find(|(notification, _)| notification.id == id)
        .map(|(notification, shown)| (notification.clone(), shown))
}

#[test]
fn allocates_ids_and_replaces_notifications_in_place() {
    let mut store = Store::default();
    let first = store.notify(incoming("first"));
    let second = store.notify(incoming("second"));

    let replacement = Incoming {
        replaces_id: first,
        summary: "updated".into(),
        ..Incoming::default()
    };
    assert_eq!(store.notify(replacement), first);
    assert_eq!(store.notifications().len(), 2);
    assert_eq!(notification(&store, first).unwrap().0.summary, "updated");
    assert_ne!(first, second);
}

#[test]
fn replacements_always_receive_a_new_revision() {
    let mut store = Store::default();
    let id = store.notify(incoming("same"));
    let revision = notification(&store, id).unwrap().0.revision;

    assert_eq!(
        store.notify(Incoming {
            replaces_id: id,
            ..incoming("same")
        }),
        id
    );
    assert!(notification(&store, id).unwrap().0.revision > revision);
}

#[test]
fn invalid_replacement_ids_create_new_notifications() {
    let mut store = Store::default();
    let id = store.notify(Incoming {
        replaces_id: 42,
        ..Incoming::default()
    });
    assert_ne!(id, 42);
    assert_ne!(id, 0);
}

#[test]
fn stack_tags_are_scoped_to_the_application() {
    let mut store = Store::default();
    let tagged = |app: &str, summary: &str| Incoming {
        app_name: app.into(),
        summary: summary.into(),
        tag: "progress".into(),
        ..Incoming::default()
    };
    let first = store.notify(tagged("one", "old"));
    let other = store.notify(tagged("two", "other"));
    assert_eq!(store.notify(tagged("one", "new")), first);
    assert_eq!(store.notifications().len(), 2);
    assert_ne!(first, other);
}

#[test]
fn non_critical_popups_hide_after_five_seconds() {
    let now = NOW;
    let mut store = Store::default();
    let low = store.notify(Incoming {
        urgency: Urgency::Low,
        ..Incoming::default()
    });
    let normal = store.notify(incoming("normal"));
    let critical = store.notify(Incoming {
        urgency: Urgency::Critical,
        ..Incoming::default()
    });

    assert!(store.hide_due_popups(now + POPUP_TIMEOUT_MS).is_empty());
    assert!(store.displayed(low, 1, now));
    assert!(store.displayed(normal, 2, now));
    assert!(store.displayed(critical, 3, now));

    assert!(store.hide_due_popups(now + POPUP_TIMEOUT_MS - 1).is_empty());
    assert!(notification(&store, low).unwrap().1);
    assert!(notification(&store, normal).unwrap().1);
    assert!(store.hide_due_popups(now + POPUP_TIMEOUT_MS).is_empty());
    assert!(!notification(&store, low).unwrap().1);
    assert!(!notification(&store, normal).unwrap().1);
    assert!(notification(&store, critical).unwrap().1);
}

#[test]
fn queued_popup_timeouts_start_only_after_display() {
    let now = NOW;
    let mut store = Store::default();
    let id = store.notify(Incoming::default());
    let revision = notification(&store, id).unwrap().0.revision;

    assert!(store.hide_due_popups(now + 1000).is_empty());
    assert!(notification(&store, id).unwrap().1);
    assert!(store.displayed(id, revision, now + 1000));
    assert!(store
        .hide_due_popups(now + 1000 + POPUP_TIMEOUT_MS - 1)
        .is_empty());
    assert!(notification(&store, id).unwrap().1);
    assert!(store.hide_due_popups(now + 1000 + POPUP_TIMEOUT_MS).is_empty());
    assert!(!notification(&store, id).unwrap().1);
}

#[test]
fn critical_replacement_cancels_the_previous_popup_timeout() {
    let now = NOW;
    let mut store = Store::default();
    let id = store.notify(Incoming::default());
    assert!(store.displayed(id, 1, now));
    store.notify(Incoming {
        replaces_id: id,
        urgency: Urgency::Critical,
        ..Incoming::default()
    });

    assert!(store.hide_due_popups(now + 1000).is_empty());
    assert!(notification(&store, id).unwrap().1);
}

#[test]
fn replacing_a_hidden_notification_keeps_it_in_the_center_without_a_popup() {
    let now = NOW;
    let mut store = Store::default();
    let id = store.notify(Incoming {
        actions: vec![Action {
            key: "reply".into(),
            label: "Reply".into(),
        }],
        ..Incoming::default()
    });
    assert!(store.displayed(id, 1, now));
    assert!(store.hide_due_popups(now + POPUP_TIMEOUT_MS).is_empty());

    assert_eq!(
        store.notify(Incoming {
            replaces_id: id,
            summary: "updated".into(),
            ..Incoming::default()
        }),
        id
    );
    let (updated, show_popup) = notification(&store, id).unwrap();
    assert_eq!(updated.summary, "updated");
    assert!(updated.actions.is_empty());
    assert!(!show_popup);
}

#[test]
fn popup_timeout_preserves_notifications_except_for_transient_items() {
    let now = NOW;
    let mut store = Store::default();
    let pixels: Arc<[u8]> = Arc::from([0, 0, 0, 0]);
    let regular = store.notify(Incoming {
        picture: Some(Picture::Pixels(Thumbnail {
            width: 1,
            height: 1,
            rowstride: 4,
            bytes: Arc::clone(&pixels),
        })),
        ..incoming("regular")
    });
    let transient = store.notify(Incoming {
        transient: true,
        ..Incoming::default()
    });
    assert_eq!(
        store
            .notifications()
            .into_iter()
            .map(|(notification, _)| notification.id)
            .collect::<Vec<_>>(),
        [transient, regular]
    );
    assert!(store.displayed(regular, 1, now));
    assert!(store.displayed(transient, 2, now));
    assert_eq!(
        store.hide_due_popups(now + POPUP_TIMEOUT_MS),
        vec![(transient, CloseReason::Expired)]
    );
    let (retained, show_popup) = notification(&store, regular).unwrap();
    assert!(!show_popup);
    let Some(Picture::Pixels(thumbnail)) = &retained.picture else {
        panic!("expected pixel picture");
    };
    assert!(Arc::ptr_eq(&thumbnail.bytes, &pixels));
    assert!(notification(&store, transient).is_none());
}

#[test]
fn sender_recall_removes_the_notification() {
    let mut store = Store::default();
    let id = store.notify(incoming("recalled"));

    assert!(store.close(id));
    assert_eq!(store.notifications().len(), 0);
}

#[test]
fn notification_count_is_bounded() {
    let mut store = Store::default();
    let mut evicted = Vec::new();
    for index in 0..MAX_NOTIFICATIONS + 5 {
        if let Some((id, _)) = store.notify_with_eviction(incoming(&index.to_string())).1 {
            evicted.push(id);
        }
    }
    assert_eq!(store.notifications().len(), MAX_NOTIFICATIONS);
    assert_eq!(evicted.len(), 5);
    assert_eq!(store.notifications()[0].0.summary, "104");
}

#[test]
fn replacement_at_capacity_does_not_evict() {
    let mut store = Store::default();
    let first = store.notify(incoming("first"));
    for index in 1..MAX_NOTIFICATIONS {
        store.notify(incoming(&index.to_string()));
    }
    let (id, evicted) = store.notify_with_eviction(Incoming {
        replaces_id: first,
        ..incoming("replacement")
    });
    assert_eq!(id, first);
    assert!(evicted.is_none());
    assert_eq!(store.notifications().len(), MAX_NOTIFICATIONS);
}

#[test]
fn capacity_eviction_closes_the_oldest_notification() {
    let mut store = Store::default();
    let oldest = store.notify(incoming("oldest"));
    for index in 1..MAX_NOTIFICATIONS {
        store.notify(incoming(&index.to_string()));
    }
    let (_, evicted) = store.notify_with_eviction(incoming("new"));
    assert_eq!(evicted, Some((oldest, CloseReason::Undefined)));
    assert!(notification(&store, oldest).is_none());
    assert_eq!(store.notifications().len(), MAX_NOTIFICATIONS);
}

#[test]
fn dnd_does_not_start_the_popup_timeout_before_display() {
    let now = NOW;
    let mut store = Store::default();
    let id = store.notify(incoming("hidden"));
    store.set_dnd(true);
    assert!(store.dnd());
    assert!(store.hide_due_popups(now + POPUP_TIMEOUT_MS).is_empty());
    assert!(notification(&store, id).unwrap().1);
    assert!(store.displayed(id, 1, now + POPUP_TIMEOUT_MS));
    assert!(store.hide_due_popups(now + POPUP_TIMEOUT_MS * 2).is_empty());
    assert!(!notification(&store, id).unwrap().1);
}

#[test]
fn next_deadline_is_the_earliest_displayed_timeout() {
    let mut store = Store::default();
    let first = store.notify(incoming("first"));
    let second = store.notify(incoming("second"));
    assert_eq!(store.next_popup_deadline(), None);
    assert!(store.displayed(second, 2, NOW + 10));
    assert!(store.displayed(first, 1, NOW));
    assert_eq!(store.next_popup_deadline(), Some(NOW + POPUP_TIMEOUT_MS));
    assert!(!store.displayed(first, 7, NOW));
}

#[test]
fn clearing_dismisses_every_notification_newest_first() {
    let mut store = Store::new();
    let first = store.notify(incoming("first"));
    let second = store.notify(incoming("second"));
    assert_eq!(
        store.clear(),
        vec![(second, CloseReason::Dismissed), (first, CloseReason::Dismissed)]
    );
    assert_eq!(store.len(), 0);
    assert!(!store.close(first));
}

#[test]
fn close_reasons_use_the_protocol_numbers() {
    assert_eq!(CloseReason::Expired.code(), 1);
    assert_eq!(CloseReason::Dismissed.code(), 2);
    assert_eq!(CloseReason::Requested.code(), 3);
    assert_eq!(CloseReason::Undefined.code(), 4);
}

#[test]
fn notify_records_the_reception_time() {
    let mut store = Store::new();
    let (id, evicted) = store.notify_at(incoming("timed"), 1234);
    assert!(evicted.is_none());
    assert_eq!(notification(&store, id).unwrap().0.received_at, 1234);
}

#[test]
fn stored_notifications_keep_distinct_revisions() {
    let mut store = Store::default();
    let first = store.notify(incoming("first"));
    let second = store.notify(incoming("second"));
    store.notify(Incoming {
        replaces_id: first,
        ..incoming("again")
    });
    store.close(second);
    store.notify(incoming("third"));
    let revisions: Vec<u64> = store
        .notifications()
        .into_iter()
        .map(|(notification, _)| notification.revision)
        .collect();
    assert_eq!(revisions.len(), 2);
    assert_ne!(revisions[0], revisions[1]);
}

#[test]
fn critical_popups_survive_displays_and_hides() {
    let mut store = Store::default();
    let id = store.notify(Incoming {
        urgency: Urgency::Critical,
        ..incoming("critical")
    });
    let revision = store.notifications()[0].0.revision;
    assert!(store.displayed(id, revision, NOW));
    assert!(store.hide_due_popups(NOW + POPUP_TIMEOUT_MS * 10).is_empty());
    assert!(store.displayed(id, revision, NOW + 1));
    assert!(store.hide_due_popups(u64::MAX).is_empty());
    let (notification, show_popup) = store.notifications()[0];
    assert_eq!(notification.id, id);
    assert!(show_popup);
}
