use varde::notifications::model::{
    application_key, application_name, from_state, group, nonempty, notification, test_snapshot,
    Snapshot,
};
use varde::notifications::state::{Action, Incoming, Store};

#[test]
fn groups_active_before_history_and_deduplicates_ids() {
    let mut active_chat = notification(2, 1, Some("Chat"), None, true);
    active_chat.summary = "Active".into();
    let snapshot = group(
        vec![
            active_chat,
            notification(1, 1, Some("Mail"), None, true),
            notification(2, 1, Some("Chat"), None, false),
            notification(3, 1, Some("Chat"), None, false),
        ],
        false,
    );
    assert_eq!(snapshot.count, 3);
    assert_eq!(snapshot.groups[0].name, "Chat");
    assert_eq!(snapshot.groups[0].notifications.len(), 2);
    assert_eq!(snapshot.groups[0].notifications[0].summary, "Active");
    assert_eq!(snapshot.groups[1].name, "Mail");
}

#[test]
fn uses_desktop_entry_then_name_then_other_for_identity() {
    let snapshot = group(
        vec![
            notification(1, 1, Some("Chat"), Some("chat"), true),
            notification(2, 1, Some("Different label"), Some("chat"), true),
            notification(3, 1, Some("Mail"), None, true),
            notification(4, 1, None, None, true),
        ],
        false,
    );

    assert_eq!(snapshot.groups.len(), 3);
    assert_eq!(snapshot.groups[0].notifications.len(), 2);
    assert_eq!(snapshot.groups[1].name, "Mail");
    assert_eq!(snapshot.groups[2].name, "Other");
}

#[test]
fn derives_bell_state() {
    assert_eq!(Snapshot::empty(false).alt(), "none");
    assert_eq!(Snapshot::empty(true).alt(), "dnd-none");

    let populated = group(vec![notification(1, 1, None, None, true)], true);
    assert_eq!(populated.alt(), "dnd-notification");
    assert_eq!(populated.tooltip(), "Do Not Disturb — 1 notification(s)");
    let history_only = group(vec![notification(1, 1, None, None, false)], false);
    assert_eq!(history_only.alt(), "notification");
    assert_eq!(history_only.tooltip(), "1 notification(s)");
    assert_eq!(
        Snapshot::unavailable().tooltip(),
        "Notifications unavailable"
    );
}

#[test]
fn carries_actions_into_the_snapshot() {
    let mut store = Store::default();
    store.notify(Incoming {
        actions: vec![Action {
            key: "reply".into(),
            label: "Reply".into(),
        }],
        ..Incoming::default()
    });

    assert_eq!(
        from_state(&store).groups[0].notifications[0].actions,
        vec![Action {
            key: "reply".into(),
            label: "Reply".into(),
        }]
    );
}

#[test]
fn empty_snapshots_describe_the_quiet_bell() {
    assert_eq!(Snapshot::empty(false).tooltip(), "No notifications");
    assert_eq!(Snapshot::empty(true).tooltip(), "Do Not Disturb");
    assert_eq!(Snapshot::unavailable().alt(), "none");
    assert!(!Snapshot::unavailable().available);
    assert!(Snapshot::empty(false).available);
}

#[test]
fn application_identity_lowercases_trimmed_names() {
    let named = notification(1, 1, Some("  Chat App "), None, true);
    assert_eq!(application_key(&named), "name:chat app");
    assert_eq!(application_name(&named), "Chat App");
    let entry = notification(1, 1, Some("Chat"), Some(" org.Chat "), true);
    assert_eq!(application_key(&entry), "desktop:org.chat");
    let anonymous = notification(1, 1, Some("   "), None, true);
    assert_eq!(application_key(&anonymous), "other");
    assert_eq!(application_name(&anonymous), "Other");
}

#[test]
fn blank_values_are_absent() {
    assert_eq!(nonempty(&Some("  x ".into())), Some("x".into()));
    assert_eq!(nonempty(&Some("   ".into())), None);
    assert_eq!(nonempty(&None), None);
}

#[test]
fn snapshots_from_the_store_count_each_notification_once() {
    let mut store = Store::new();
    store.set_dnd(true);
    store.notify(Incoming {
        app_name: "Mail".into(),
        ..Incoming::default()
    });
    store.notify(Incoming {
        app_name: "Chat".into(),
        ..Incoming::default()
    });
    let snapshot = from_state(&store);
    assert_eq!(snapshot.count, 2);
    assert!(snapshot.dnd);
    assert!(snapshot.available);
    assert_eq!(snapshot.groups[0].name, "Chat");
    assert_eq!(snapshot.groups[1].name, "Mail");
    assert!(snapshot.groups[0].notifications[0].active);
    assert_eq!(snapshot.groups[0].notifications[0].urgency.as_deref(), Some("normal"));
}

#[test]
fn test_snapshots_group_anonymous_notifications() {
    let snapshot = test_snapshot(&[(1, 1), (2, 5), (1, 3)]);
    assert_eq!(snapshot.count, 2);
    assert_eq!(snapshot.groups.len(), 1);
    assert_eq!(snapshot.groups[0].notifications.len(), 2);
    assert_eq!(snapshot.groups[0].notifications[1].revision, 5);
}
