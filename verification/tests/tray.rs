use varde::tray::model::{
    apply_event, click_action, item_from_properties, ClickAction, scale_pixmap, ItemProperties, select_pixmap, Pixmap, tooltip, valid_path, Event, Item, ItemId, ICON_SIZE,
};
use varde::tray::watcher::{
    name_owner_lost, owner_was_lost, signal_route, watcher_message, SignalRoute, StartedItems,
    WatcherMessage, DBUS_INTERFACE, ITEM_INTERFACE, WATCHER_INTERFACE, WATCHER_NAME, WATCHER_PATH,
};

const ITEM_PATH: &str = "/StatusNotifierItem";

#[test]
fn parses_service_and_object_path_registration() {
    assert_eq!(
        ItemId::parse("org.kde.StatusNotifierItem-42-1", ":1.42"),
        Some(ItemId {
            service: "org.kde.StatusNotifierItem-42-1".into(),
            path: ITEM_PATH.into(),
        })
    );
    assert_eq!(
        ItemId::parse("/StatusNotifierItem", ":1.42"),
        Some(ItemId {
            service: ":1.42".into(),
            path: "/StatusNotifierItem".into(),
        })
    );
    assert_eq!(ItemId::parse("/not-valid/", ":1.42"), None);
}

#[test]
fn parses_registrations_with_and_without_an_object_path() {
    assert_eq!(
        ItemId::from_registration(":1.42/StatusNotifierItem"),
        Some(ItemId {
            service: ":1.42".into(),
            path: "/StatusNotifierItem".into(),
        })
    );
    assert_eq!(
        ItemId::from_registration("org.kde.StatusNotifierItem-42-1"),
        Some(ItemId {
            service: "org.kde.StatusNotifierItem-42-1".into(),
            path: ITEM_PATH.into(),
        })
    );
    assert_eq!(ItemId::from_registration(""), None);
}

#[test]
fn selects_the_nearest_valid_pixmap_and_converts_argb() {
    let pixmap = select_pixmap(vec![
        (8, 8, vec![0; 8 * 8 * 4]),
        (16, 16, [1, 2, 3, 4].repeat(16 * 16)),
        (32, 32, vec![0; 32 * 32 * 4]),
    ])
    .expect("a valid pixmap");
    assert_eq!((pixmap.width, pixmap.height), (16, 16));
    assert_eq!(&pixmap.rgba[..4], &[2, 3, 4, 1]);
}

#[test]
fn distinguishes_owner_loss_from_iterator_termination() {
    assert!(owner_was_lost::<()>(Some(None)));
    assert!(!owner_was_lost(Some(Some(()))));
    assert!(!owner_was_lost::<()>(None));
}

#[test]
fn registration_round_trips_through_the_watcher_listing() {
    let id = ItemId::parse("/org/ayatana/item_1", ":1.7").unwrap();
    assert_eq!(id.registration(), ":1.7/org/ayatana/item_1");
    assert_eq!(ItemId::from_registration(&id.registration()), Some(id));
    assert_eq!(ItemId::from_registration("/StatusNotifierItem"), None);
    assert_eq!(ItemId::from_registration(":1.7/bad//path"), None);
    assert_eq!(ItemId::parse("", ":1.7"), None);
}

#[test]
fn validates_object_paths() {
    assert!(!valid_path("/"));
    assert!(valid_path("/StatusNotifierItem"));
    assert!(valid_path("/org/a_b/C9"));
    assert!(!valid_path(""));
    assert!(!valid_path("relative"));
    assert!(!valid_path("/trailing/"));
    assert!(!valid_path("/double//slash"));
    assert!(!valid_path("/with-dash"));
}

#[test]
fn tooltips_join_title_and_text() {
    assert_eq!(tooltip("", ""), None);
    assert_eq!(tooltip("Title", ""), Some("Title".into()));
    assert_eq!(tooltip("", "Text"), Some("Text".into()));
    assert_eq!(tooltip("Title", "Text"), Some("Title\nText".into()));
}

#[test]
fn pixmap_selection_skips_unusable_data_and_prefers_larger_on_ties() {
    assert_eq!(ICON_SIZE, 14);
    assert!(select_pixmap(vec![(4, 4, vec![0; 3]), (0, 0, vec![])]).is_none());
    let pixmap = select_pixmap(vec![
        (12, 12, vec![9; 12 * 12 * 4]),
        (16, 16, vec![7; 16 * 16 * 4]),
        (16, 16, vec![5; 16 * 16 * 4]),
    ])
    .unwrap();
    assert_eq!((pixmap.width, pixmap.rgba[0]), (16, 7));
}

#[test]
fn only_an_emptied_owner_is_a_loss() {
    let change = |name: &str, old: &str, new: &str| (name.to_string(), old.to_string(), new.to_string());
    assert!(name_owner_lost(&change(":1.42", ":1.42", ""), ":1.42"));
    assert!(!name_owner_lost(&change(":1.42", ":1.42", ":1.43"), ":1.42"));
    assert!(!name_owner_lost(&change(":1.7", ":1.7", ""), ":1.42"));
}

fn item(service: &str, status: &str, icon: &str) -> Item {
    Item {
        id: ItemId {
            service: service.into(),
            path: ITEM_PATH.into(),
        },
        status: status.into(),
        tooltip: None,
        icon_name: icon.into(),
        pixmap: None,
        item_is_menu: false,
        menu_path: None,
    }
}

#[test]
fn tray_events_update_the_item_list_in_place() {
    let mut items = Vec::new();
    apply_event(&mut items, Event::Upsert(item(":1.1", "Active", "one")));
    apply_event(&mut items, Event::Upsert(item(":1.2", "Active", "two")));
    apply_event(&mut items, Event::Upsert(item(":1.1", "NeedsAttention", "one-alert")));
    let names: Vec<&str> = items.iter().map(|i| i.icon_name.as_str()).collect();
    assert_eq!(names, vec!["one-alert", "two"]);

    apply_event(&mut items, Event::Upsert(item(":1.2", "Passive", "two")));
    assert_eq!(items.len(), 1);
    apply_event(
        &mut items,
        Event::Remove(ItemId {
            service: ":1.1".into(),
            path: ITEM_PATH.into(),
        }),
    );
    assert!(items.is_empty());
    apply_event(&mut items, Event::Upsert(item(":1.3", "Passive", "three")));
    assert!(items.is_empty());
}

fn item_id(service: &str) -> ItemId {
    ItemId {
        service: service.into(),
        path: "/StatusNotifierItem".into(),
    }
}

#[test]
fn distinguishes_owner_loss_from_replacement() {
    let lost = (":1.42".to_string(), ":1.42".to_string(), String::new());
    let replaced = (
        ":1.42".to_string(),
        ":1.42".to_string(),
        ":1.43".to_string(),
    );
    let other = (":1.7".to_string(), ":1.7".to_string(), String::new());

    assert!(name_owner_lost(&lost, ":1.42"));
    assert!(!name_owner_lost(&replaced, ":1.42"));
    assert!(!name_owner_lost(&other, ":1.42"));
}

#[test]
fn stale_worker_cannot_remove_replacement_generation() {
    let id = item_id(":1.42");
    let mut started = StartedItems::new();
    assert_eq!(started.start(id.clone(), "first"), Ok(1));
    assert_eq!(started.cancel(&id), Some("first"));
    assert_eq!(started.start(id.clone(), "second"), Ok(2));

    assert!(started.remove_generation(&id, 1).is_none());
    assert!(started.is_current(&id, 2));
    assert!(started.remove_generation(&id, 2).is_some());
}

#[test]
fn started_items_track_owners_and_signals() {
    let id = item_id(":1.42");
    let other = item_id("org.example.Tray");
    let mut started = StartedItems::new();
    assert_eq!(started.start(id.clone(), 1u8), Ok(1));
    assert_eq!(started.start(id.clone(), 2u8), Err(2));
    assert_eq!(started.start(other.clone(), 3u8), Ok(2));
    assert!(started.contains(&other));
    assert!(!started.set_owner(&id, 7, ":1.42".into()));
    assert!(started.set_owner(&id, 1, ":1.42".into()));
    assert_eq!(started.signal_targets("/StatusNotifierItem", ":1.42"), vec![0]);
    assert!(started.signal_targets("/StatusNotifierItem", ":1.99").is_empty());

    let (stop, refresh) = started.owner_changed(&(
        "org.example.Tray".to_string(),
        String::new(),
        ":1.50".to_string(),
    ));
    assert!(stop.is_empty());
    assert_eq!(refresh, vec![1]);
    assert_eq!(started.signal_targets("/StatusNotifierItem", ":1.50"), vec![1]);

    let (stop, refresh) = started.owner_changed(&(
        ":1.42".to_string(),
        ":1.42".to_string(),
        String::new(),
    ));
    assert_eq!(stop, vec![0]);
    assert!(refresh.is_empty());
}

fn pixel(value: u8) -> [u8; 4] {
    [value, value, value, 255]
}

#[test]
fn keeps_pixmaps_that_already_have_the_icon_size() {
    let rgba = vec![7; (ICON_SIZE * 2 * 4) as usize];
    let pixmap = Pixmap {
        width: ICON_SIZE,
        height: 2,
        rgba: rgba.clone(),
    };
    assert_eq!(scale_pixmap(&pixmap, ICON_SIZE), pixmap);
}

#[test]
fn scales_pixmaps_by_nearest_neighbour_keeping_the_aspect_ratio() {
    // A 2x1 pixmap, dark then light, drawn at four pixels.
    let mut rgba = Vec::new();
    rgba.extend_from_slice(&pixel(10));
    rgba.extend_from_slice(&pixel(200));
    let pixmap = Pixmap {
        width: 2,
        height: 1,
        rgba,
    };
    let scaled = scale_pixmap(&pixmap, 4);
    assert_eq!((scaled.width, scaled.height), (4, 2));
    let mut expected = Vec::new();
    for _ in 0..2 {
        for value in [10, 10, 200, 200] {
            expected.extend_from_slice(&pixel(value));
        }
    }
    assert_eq!(scaled.rgba, expected);

    // Shrinking a 4x4 pixmap to two pixels keeps every other pixel.
    let rgba = (0..16u8).flat_map(pixel).collect::<Vec<_>>();
    let small = scale_pixmap(
        &Pixmap {
            width: 4,
            height: 4,
            rgba,
        },
        2,
    );
    assert_eq!((small.width, small.height), (2, 2));
    let expected = [0u8, 2, 8, 10]
        .into_iter()
        .flat_map(pixel)
        .collect::<Vec<_>>();
    assert_eq!(small.rgba, expected);

    // A thin pixmap keeps at least one pixel across.
    let thin = scale_pixmap(
        &Pixmap {
            width: 100,
            height: 1,
            rgba: vec![1; 400],
        },
        14,
    );
    assert_eq!((thin.width, thin.height), (14, 1));
}

fn properties() -> ItemProperties {
    ItemProperties {
        status: None,
        title: None,
        icon_name: Some("app".into()),
        attention_icon_name: Some("app-alert".into()),
        icon_pixmap: Some(vec![(1, 1, vec![255, 1, 2, 3])]),
        attention_icon_pixmap: Some(vec![(1, 1, vec![255, 9, 9, 9])]),
        tooltip: None,
        item_is_menu: None,
    }
}

fn service_id() -> ItemId {
    ItemId {
        service: ":1.42".into(),
        path: ITEM_PATH.into(),
    }
}

#[test]
fn reads_an_active_item_from_its_properties() {
    let item = item_from_properties(service_id(), properties());
    assert_eq!(item.status, "Active");
    assert_eq!(item.icon_name, "app");
    assert_eq!(item.pixmap.unwrap().rgba, vec![1, 2, 3, 255]);
    assert_eq!(item.tooltip.as_deref(), Some(":1.42"));
    assert!(!item.item_is_menu);
    assert!(item.menu_path.is_none());
}

#[test]
fn an_item_asking_for_attention_shows_its_attention_icon() {
    let mut props = properties();
    props.status = Some("NeedsAttention".into());
    props.title = Some("Chat".into());
    props.tooltip = Some(("Chat".into(), "3 unread".into()));
    props.item_is_menu = Some(true);
    let item = item_from_properties(service_id(), props);
    assert_eq!(item.icon_name, "app-alert");
    assert_eq!(item.pixmap.unwrap().rgba, vec![9, 9, 9, 255]);
    assert_eq!(item.tooltip.as_deref(), Some("Chat\n3 unread"));
    assert!(item.item_is_menu);

    let mut props = properties();
    props.status = Some("NeedsAttention".into());
    props.attention_icon_name = None;
    props.attention_icon_pixmap = None;
    props.tooltip = Some((String::new(), String::new()));
    props.title = Some("Title".into());
    let item = item_from_properties(service_id(), props);
    assert_eq!(item.icon_name, "app");
    assert_eq!(item.pixmap.unwrap().rgba, vec![1, 2, 3, 255]);
    assert_eq!(item.tooltip.as_deref(), Some("Title"));
}

#[test]
fn routes_item_and_owner_signals() {
    for member in [
        "NewIcon",
        "NewAttentionIcon",
        "NewStatus",
        "NewTitle",
        "NewToolTip",
        "NewMenu",
    ] {
        assert_eq!(
            signal_route(Some(ITEM_INTERFACE), Some(member)),
            SignalRoute::RefreshItems
        );
    }
    assert_eq!(
        signal_route(Some(ITEM_INTERFACE), Some("NewOverlayIcon")),
        SignalRoute::Ignore
    );
    assert_eq!(signal_route(Some(ITEM_INTERFACE), None), SignalRoute::Ignore);
    assert_eq!(
        signal_route(Some(DBUS_INTERFACE), Some("NameOwnerChanged")),
        SignalRoute::OwnerChange
    );
    assert_eq!(
        signal_route(Some(DBUS_INTERFACE), Some("NameAcquired")),
        SignalRoute::Ignore
    );
    assert_eq!(signal_route(None, Some("NewIcon")), SignalRoute::Ignore);
}

#[test]
fn hands_out_the_data_of_followed_items() {
    let mut started = StartedItems::new();
    let first = ItemId {
        service: ":1.7".into(),
        path: ITEM_PATH.into(),
    };
    assert!(started.start(first, "worker").is_ok());
    assert_eq!(started.len(), 1);
    assert_eq!(started.data_at(0), Some(&"worker"));
    assert_eq!(started.data_at(1), None);
}

#[test]
fn hands_out_the_ids_of_followed_items() {
    let mut started = StartedItems::new();
    let id = ItemId {
        service: ":1.8".into(),
        path: ITEM_PATH.into(),
    };
    assert!(started.start(id.clone(), ()).is_ok());
    assert_eq!(started.id_at(0), Some(&id));
    assert_eq!(started.id_at(1), None);
}

#[test]
fn clicks_activate_items_or_open_their_menus() {
    assert_eq!(click_action(1, false), Some(ClickAction::Activate));
    assert_eq!(click_action(1, true), Some(ClickAction::Menu));
    assert_eq!(click_action(2, false), Some(ClickAction::SecondaryActivate));
    assert_eq!(click_action(3, false), Some(ClickAction::Menu));
    assert_eq!(click_action(8, false), None);
}

fn watcher_item() -> ItemId {
    ItemId::from_registration(":1.7/StatusNotifierItem").unwrap()
}

#[test]
fn the_watcher_losing_its_name_stops_the_host() {
    let change = (WATCHER_NAME.to_string(), ":1.2".to_string(), String::new());
    assert_eq!(
        watcher_message(Some("NameOwnerChanged"), Some(&change), None, Some("org.freedesktop.DBus"), None, None, ":1.2"),
        WatcherMessage::Stop
    );
    let other = ("org.example.Other".to_string(), ":1.3".to_string(), String::new());
    assert_eq!(
        watcher_message(Some("NameOwnerChanged"), Some(&other), None, Some("org.freedesktop.DBus"), None, None, ":1.2"),
        WatcherMessage::Ignore
    );
}

#[test]
fn registrations_from_the_watcher_start_and_cancel_items() {
    let from_watcher = |member: &str, item: Option<ItemId>| {
        watcher_message(
            Some(member),
            None,
            item,
            Some(":1.2"),
            Some(WATCHER_INTERFACE),
            Some(WATCHER_PATH),
            ":1.2",
        )
    };
    assert_eq!(
        from_watcher("StatusNotifierItemRegistered", Some(watcher_item())),
        WatcherMessage::Start(watcher_item())
    );
    assert_eq!(
        from_watcher("StatusNotifierItemUnregistered", Some(watcher_item())),
        WatcherMessage::Cancel(watcher_item())
    );
    assert_eq!(from_watcher("StatusNotifierItemRegistered", None), WatcherMessage::Ignore);
    assert_eq!(from_watcher("StatusNotifierHostRegistered", Some(watcher_item())), WatcherMessage::Ignore);
}

#[test]
fn registrations_from_anyone_else_are_ignored() {
    assert_eq!(
        watcher_message(
            Some("StatusNotifierItemRegistered"),
            None,
            Some(watcher_item()),
            Some(":1.9"),
            Some(WATCHER_INTERFACE),
            Some(WATCHER_PATH),
            ":1.2",
        ),
        WatcherMessage::Ignore
    );
    assert_eq!(
        watcher_message(
            Some("StatusNotifierItemRegistered"),
            None,
            Some(watcher_item()),
            Some(":1.2"),
            Some(WATCHER_INTERFACE),
            Some("/Other"),
            ":1.2",
        ),
        WatcherMessage::Ignore
    );
    assert_eq!(
        watcher_message(None, None, Some(watcher_item()), Some(":1.2"), None, None, ":1.2"),
        WatcherMessage::Ignore
    );
}
