use varde::notifications::daemon::{
    byte_len, capabilities, image_hint, incoming, notify_request, picture_hint, string_hint, Hints, handle_command, handle_timeout, invoke_action, Command, notification_actions, picture_path, progress, sound,
    truncate_utf8, urgency, PicturePath, Sound, MAX_ACTIONS, MAX_ACTION_KEY_BYTES,
    MAX_ACTION_LABEL_BYTES, MAX_BODY_BYTES, MAX_TEXT_BYTES,
};
use varde::notifications::image::{from_raw, RawImage};
use varde::notifications::state::{Action, CloseReason, Incoming, Picture, Store, Thumbnail, Urgency};

fn has(store: &Store, id: u32) -> bool {
    store
        .notifications()
        .into_iter()
        .any(|(notification, _)| notification.id == id)
}

#[test]
fn resident_actions_do_not_consume_notifications() {
    let mut store = Store::default();
    let id = store.notify(Incoming {
        actions: vec![Action {
            key: "reply".into(),
            label: "Reply".into(),
        }],
        resident: true,
        ..Incoming::default()
    });

    assert_eq!(invoke_action(&mut store, id, "reply"), (true, false));
    assert!(has(&store, id));
    assert!(store.close(id));
}

#[test]
fn nonresident_actions_consume_notifications() {
    let mut store = Store::default();
    let id = store.notify(Incoming {
        actions: vec![Action {
            key: "default".into(),
            label: "Open".into(),
        }],
        ..Incoming::default()
    });

    assert_eq!(invoke_action(&mut store, id, "default"), (true, true));
    assert!(!has(&store, id));
}

#[test]
fn unknown_actions_do_not_consume_notifications() {
    let mut store = Store::default();
    let id = store.notify(Incoming::default());

    assert_eq!(invoke_action(&mut store, id, "default"), (false, false));
    assert!(has(&store, id));
}

#[test]
fn actions_remain_active_after_the_popup_timeout() {
    let now = 50_000;
    let mut store = Store::default();
    let id = store.notify(Incoming {
        actions: vec![Action {
            key: "archive".into(),
            label: "Archive".into(),
        }],
        ..Incoming::default()
    });
    assert!(store.displayed(id, 1, now));
    assert!(store.hide_due_popups(now + 5000).is_empty());

    assert_eq!(invoke_action(&mut store, id, "archive"), (true, true));
    assert!(!has(&store, id));
}

#[test]
fn parses_action_pairs_in_order_and_ignores_a_trailing_value() {
    let values = ["default", "Open", "reply", "Reply", "mute", "", "odd"].map(String::from);

    assert_eq!(
        notification_actions(&values),
        vec![
            Action {
                key: "default".into(),
                label: "Open".into(),
            },
            Action {
                key: "reply".into(),
                label: "Reply".into(),
            },
            Action {
                key: "mute".into(),
                label: "".into(),
            },
        ]
    );
}

#[test]
fn bounds_action_count_and_text() {
    let mut values = Vec::new();
    for index in 0..MAX_ACTIONS + 2 {
        values.push(if index == 0 {
            "k".repeat(MAX_ACTION_KEY_BYTES + 1)
        } else {
            format!("key-{index}")
        });
        values.push("l".repeat(MAX_ACTION_LABEL_BYTES + 1));
    }

    let actions = notification_actions(&values);

    assert_eq!(actions.len(), MAX_ACTIONS);
    assert_eq!(actions[0].key.len(), MAX_ACTION_KEY_BYTES);
    assert_eq!(actions[0].label.len(), MAX_ACTION_LABEL_BYTES);
    assert_eq!(
        actions.last().unwrap().key,
        format!("key-{}", MAX_ACTIONS - 1)
    );
}

#[test]
fn truncates_utf8_without_splitting_code_points() {
    assert_eq!(truncate_utf8("abéz", 3), "ab");
    assert_eq!(truncate_utf8("abéz", 4), "abé");
    assert_eq!(truncate_utf8("short", MAX_TEXT_BYTES), "short");
    assert_eq!(
        truncate_utf8(&"x".repeat(MAX_TEXT_BYTES + 1), MAX_TEXT_BYTES).len(),
        MAX_TEXT_BYTES
    );
    assert_eq!(
        truncate_utf8(&"x".repeat(MAX_BODY_BYTES + 1), MAX_BODY_BYTES).len(),
        MAX_BODY_BYTES
    );
}

#[test]
fn reads_urgency_levels() {
    assert_eq!(urgency(Some(0)), Urgency::Low);
    assert_eq!(urgency(Some(-3)), Urgency::Low);
    assert_eq!(urgency(Some(1)), Urgency::Normal);
    assert_eq!(urgency(Some(2)), Urgency::Critical);
    assert_eq!(urgency(None), Urgency::Normal);
}

#[test]
fn accepts_percentage_progress_values() {
    assert_eq!(progress(Some(42)), Some(42));
    assert_eq!(progress(Some(0)), Some(0));
    assert_eq!(progress(Some(100)), Some(100));
    assert_eq!(progress(Some(101)), None);
    assert_eq!(progress(Some(-1)), None);
    assert_eq!(progress(None), None);
}

#[test]
fn usable_sound_files_win_over_names_unless_suppressed() {
    let name = || Some(String::from("message-new-instant"));
    assert_eq!(
        sound(false, None, name()),
        Some(Sound::Name("message-new-instant".into()))
    );
    assert_eq!(
        sound(false, Some(("/tmp/bell.oga".into(), true)), name()),
        Some(Sound::File("/tmp/bell.oga".into()))
    );
    assert_eq!(
        sound(false, Some(("relative.oga".into(), false)), name()),
        Some(Sound::Name("message-new-instant".into()))
    );
    assert_eq!(sound(true, Some(("/tmp/bell.oga".into(), true)), name()), None);
    assert_eq!(sound(false, Some(("relative.oga".into(), false)), None), None);
    assert_eq!(sound(false, None, Some("x".repeat(MAX_TEXT_BYTES + 1))), None);
}

#[test]
fn reads_picture_paths() {
    assert_eq!(picture_path("/tmp/picture.png"), PicturePath::File);
    assert_eq!(picture_path("file:///tmp/picture.png"), PicturePath::File);
    assert_eq!(picture_path("dialog-information"), PicturePath::Themed);
    assert_eq!(
        picture_path(&format!("/{}", "x".repeat(MAX_TEXT_BYTES))),
        PicturePath::TooLong
    );
}

#[test]
fn counts_utf8_bytes() {
    assert_eq!(byte_len(&String::from("abé")), 4);
    assert_eq!(byte_len(&String::from("")), 0);
    assert_eq!(byte_len(&String::from("\u{1f514}")), 4);
}

#[test]
fn announces_sound_only_when_it_can_play() {
    let with = capabilities(true);
    let without = capabilities(false);
    assert_eq!(
        without,
        vec![
            "actions",
            "body",
            "icon-static",
            "persistence",
            "x-canonical-private-synchronous",
            "x-dunst-stack-tag"
        ]
    );
    assert_eq!(with.len(), 7);
    assert_eq!(with[6], "sound");
}

#[test]
fn commands_change_the_store_and_report_closures() {
    let mut store = Store::new();
    let first = store.notify(Incoming {
        actions: vec![Action {
            key: "open".into(),
            label: "Open".into(),
        }],
        ..Incoming::default()
    });
    let second = store.notify(Incoming::default());
    let third = store.notify(Incoming::default());

    let wake = handle_command(&mut store, Command::Wake, 0);
    assert!(!wake.publish && wake.closed.is_empty() && wake.action.is_none());

    let toggled = handle_command(&mut store, Command::ToggleDnd, 0);
    assert!(toggled.publish);
    assert!(store.dnd());

    let group = handle_command(&mut store, Command::DismissGroup(vec![second, 99, third]), 0);
    assert_eq!(
        group.closed,
        vec![(second, CloseReason::Dismissed), (third, CloseReason::Dismissed)]
    );
    assert_eq!(store.len(), 1);

    let invoked = handle_command(
        &mut store,
        Command::InvokeAction(first, "open".into(), Some("token".into())),
        0,
    );
    assert_eq!(invoked.action, Some((first, "open".to_string(), Some("token".to_string()))));
    assert_eq!(invoked.closed, vec![(first, CloseReason::Dismissed)]);
    assert_eq!(store.len(), 0);

    let missing = handle_command(&mut store, Command::Dismiss(first), 0);
    assert!(missing.closed.is_empty() && missing.publish);

    let announced = handle_command(&mut store, Command::EmitClosed(7, CloseReason::Expired), 0);
    assert_eq!(announced.closed, vec![(7, CloseReason::Expired)]);
}

#[test]
fn displayed_popups_time_out_after_the_deadline() {
    let mut store = Store::new();
    let transient = store.notify(Incoming {
        transient: true,
        ..Incoming::default()
    });
    let shown = handle_command(&mut store, Command::Displayed(vec![(transient, 1)]), 1000);
    assert!(!shown.publish);
    assert_eq!(store.next_popup_deadline(), Some(6000));
    let early = handle_timeout(&mut store, 5999);
    assert!(early.closed.is_empty() && early.publish);
    let due = handle_timeout(&mut store, 6000);
    assert_eq!(due.closed, vec![(transient, CloseReason::Expired)]);
    let cleared = handle_command(&mut store, Command::Clear, 0);
    assert!(cleared.closed.is_empty());
}

fn no_hints() -> Hints {
    Hints {
        urgency: None,
        progress: None,
        desktop_entry: None,
        canonical_tag: None,
        dunst_tag: None,
        transient: false,
        resident: false,
    }
}

#[test]
fn accepts_standard_and_chromium_urgency_types() {
    for (value, expected) in [
        (i64::from(0_u8), Urgency::Low),
        (i64::from(1_u32), Urgency::Normal),
        (i64::from(2_i32), Urgency::Critical),
    ] {
        assert_eq!(urgency(Some(value)), expected);
    }
}

#[test]
fn canonical_stack_tag_takes_priority() {
    assert_eq!(
        string_hint(Some("canonical".into())),
        Some("canonical".into())
    );
    let mut hints = no_hints();
    hints.canonical_tag = Some("canonical".into());
    hints.dunst_tag = Some("dunst".into());
    let request = incoming(0, "app", "", "summary", "", &[], hints, None);
    assert_eq!(request.tag, "canonical");
}

#[test]
fn dunst_stack_tag_applies_without_a_canonical_one() {
    let mut hints = no_hints();
    hints.canonical_tag = Some(String::new());
    hints.dunst_tag = Some("dunst".into());
    let request = incoming(0, "app", "", "summary", "", &[], hints, None);
    assert_eq!(request.tag, "dunst");
    let request = incoming(0, "app", "", "summary", "", &[], no_hints(), None);
    assert_eq!(request.tag, "");
}

#[test]
fn reads_the_standard_image_path_hint() {
    let icon = string_hint(Some("/tmp/picture.png".into()))
        .or_else(|| string_hint(None))
        .unwrap_or_else(|| "fallback".into());
    assert_eq!(icon, "/tmp/picture.png");
    assert_eq!(string_hint(Some(String::new())), None);
}

#[test]
fn accepts_percentage_progress_hints() {
    for value in [i64::from(42_i32), i64::from(42_u32), i64::from(42_u8)] {
        assert_eq!(progress(Some(value)), Some(42));
    }
    for value in [-1_i64, 101] {
        assert_eq!(progress(Some(value)), None);
    }
}

#[test]
fn accepts_themed_image_path_names() {
    assert_eq!(picture_path("dialog-information"), PicturePath::Themed);
}

#[test]
fn ignores_overlong_image_paths() {
    assert_eq!(
        picture_path(&"x".repeat(MAX_TEXT_BYTES + 1)),
        PicturePath::TooLong
    );
}

#[test]
fn selects_and_suppresses_notification_sounds() {
    let path = String::from("/tmp/varde-notification-sound.oga");
    let name = || Some(String::from("message-new-instant"));
    assert_eq!(
        sound(false, None, name()),
        Some(Sound::Name("message-new-instant".into()))
    );
    assert_eq!(
        sound(false, Some((path.clone(), true)), name()),
        Some(Sound::File(path.clone()))
    );
    assert_eq!(sound(true, None, name()), None);
}

#[test]
fn rejects_relative_and_missing_sound_files() {
    for path in ["relative.oga", "/missing/notification.oga"] {
        assert_eq!(sound(false, Some((path.into(), false)), None), None);
    }
    assert_eq!(sound(false, Some((String::new(), true)), Some(String::new())), None);
}

#[test]
fn a_request_is_bounded_and_read() {
    let mut hints = no_hints();
    hints.urgency = Some(2);
    hints.progress = Some(50);
    hints.desktop_entry = Some("firefox".into());
    hints.transient = true;
    let actions = vec!["default".to_string(), "Open".to_string(), "odd".to_string()];
    let long = "x".repeat(MAX_TEXT_BYTES + 10);
    let request = incoming(7, &long, "icon", "summary", "body", &actions, hints, None);
    assert_eq!(request.replaces_id, 7);
    assert_eq!(request.app_name.len(), MAX_TEXT_BYTES);
    assert_eq!(request.app_icon, "icon");
    assert_eq!(request.summary, "summary");
    assert_eq!(request.body, "body");
    assert_eq!(request.urgency, Urgency::Critical);
    assert_eq!(request.progress, Some(50));
    assert_eq!(request.desktop_entry, "firefox");
    assert!(request.transient);
    assert!(!request.resident);
    assert_eq!(
        request.actions,
        vec![Action {
            key: "default".into(),
            label: "Open".into()
        }]
    );
}

fn raw_thumbnail(rowstride: i32, bytes: Vec<u8>) -> Option<Thumbnail> {
    match from_raw(1, 1, rowstride, true, 8, 4, bytes) {
        Some(RawImage::Ready(thumbnail)) => Some(thumbnail),
        _ => None,
    }
}

fn picture_bytes(picture: Option<Picture>) -> Vec<u8> {
    match picture {
        Some(Picture::Pixels(thumbnail)) => thumbnail.bytes.to_vec(),
        Some(Picture::Themed(icon)) => panic!("expected thumbnail, got icon {icon}"),
        None => panic!("expected thumbnail, got none"),
    }
}

#[test]
fn standard_raw_image_takes_priority_over_deprecated_aliases() {
    let image = image_hint(raw_thumbnail(4, vec![1; 4]), raw_thumbnail(4, vec![2; 4]));
    assert_eq!(image.unwrap().bytes.as_ref(), &[1; 4]);
}

#[test]
fn skips_invalid_aliases_before_the_first_valid_raw_image() {
    let first = raw_thumbnail(3, vec![1; 4]);
    assert!(first.is_none());
    let image = image_hint(first, raw_thumbnail(4, vec![2; 4]));
    assert_eq!(image.unwrap().bytes.as_ref(), &[2; 4]);
}

#[test]
fn raw_images_come_before_image_paths() {
    let picture = picture_hint(
        raw_thumbnail(4, vec![9, 8, 7, 6]),
        None,
        Some(Picture::Themed("dialog-information".into())),
        None,
        None,
    );
    assert_eq!(picture_bytes(picture), vec![9, 8, 7, 6]);
}

#[test]
fn image_paths_come_before_deprecated_icon_data() {
    let picture = picture_hint(
        None,
        None,
        Some(Picture::Themed("dialog-information".into())),
        None,
        raw_thumbnail(4, vec![9, 8, 7, 6]),
    );
    assert_eq!(picture, Some(Picture::Themed("dialog-information".into())));
}

#[test]
fn unusable_sources_fall_through_in_alias_order() {
    let picture = picture_hint(
        raw_thumbnail(3, vec![0; 4]),
        None,
        None,
        Some(Picture::Themed("second".into())),
        raw_thumbnail(4, vec![1; 4]),
    );
    assert_eq!(picture, Some(Picture::Themed("second".into())));
    let last = picture_hint(None, None, None, None, raw_thumbnail(4, vec![5; 4]));
    assert_eq!(picture_bytes(last), vec![5; 4]);
    assert_eq!(picture_hint(None, None, None, None, None), None);
}

#[test]
fn notify_ignores_the_expire_timeout() {
    let request = || incoming(0, "app", "", "summary", "body", &[], no_hints(), None);
    let mut first = Store::default();
    let mut second = Store::default();
    let (a, evicted_a, sound_a) = notify_request(&mut first, request(), -1);
    let (b, evicted_b, sound_b) = notify_request(&mut second, request(), 60_000);
    assert_eq!((a, evicted_a, sound_a), (b, evicted_b, sound_b));
    let shown = |store: &Store| {
        store
            .notifications()
            .into_iter()
            .map(|(n, popup)| (n.id, n.revision, n.summary.clone(), n.urgency, popup))
            .collect::<Vec<_>>()
    };
    assert_eq!(shown(&first), shown(&second));
    first.displayed(a, 1, 1_000);
    second.displayed(b, 1, 1_000);
    assert!(first.hide_due_popups(5_999).is_empty());
    assert!(second.hide_due_popups(5_999).is_empty());
    first.hide_due_popups(6_000);
    second.hide_due_popups(6_000);
    assert_eq!(shown(&first), shown(&second));
    assert!(!shown(&first)[0].4);
}
