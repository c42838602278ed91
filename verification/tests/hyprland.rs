use varde::hyprland::{
    activation_command, event_needs_refresh, is_shown, urgent_reply, selector_for, workspace_classes, is_active_address, normalize_address,
    parse_event, parse_submap_query, react, state_from_parts, workspace_structure_changed,
    ActiveWindow, ActiveWorkspace, Event, Reaction, State, TitleUpdates, Workspace,
    WorkspaceInfo, WorkspaceSelector, TITLE_UPDATE_INTERVAL_MS,
};

fn info(id: i64, name: &str, monitor: &str, urgent: bool) -> WorkspaceInfo {
    WorkspaceInfo {
        id,
        name: name.into(),
        monitor: monitor.into(),
        urgent,
    }
}

#[test]
fn keeps_regular_workspaces_on_the_active_output() {
    let state = state_from_parts(
        vec![
            info(3, "3", "DP-1", true),
            info(-1337, "development", "DP-1", false),
            info(-99, "special:scratchpad", "DP-1", false),
            info(1, "1", "DP-1", false),
            info(2, "2", "HDMI-A-1", false),
        ],
        ActiveWorkspace {
            id: 1,
            monitor: "DP-1".into(),
        },
        ActiveWindow {
            address: String::new(),
            title: "Terminal".into(),
        },
        None,
    );

    assert_eq!(state.active_id, Some(1));
    assert_eq!(state.title, "Terminal");
    assert_eq!(state.submap, None);
    assert_eq!(
        state.workspaces,
        vec![
            Workspace {
                id: 1,
                name: "1".into(),
                urgent: false,
            },
            Workspace {
                id: 3,
                name: "3".into(),
                urgent: true,
            },
            Workspace {
                id: -1337,
                name: "development".into(),
                urgent: false,
            },
        ]
    );
}

#[test]
fn parses_events_that_change_the_module() {
    assert_eq!(
        parse_event("activewindowv2>>0x123"),
        Event::ActiveWindow(Some("123".into()))
    );
    assert_eq!(parse_event("activewindowv2>>"), Event::ActiveWindow(None));
    assert_eq!(parse_event("activewindow>>class,title"), Event::Ignore);
    assert_eq!(parse_event("workspacev2>>2,2"), Event::Workspace(2));
    assert_eq!(parse_event("workspacev2>>invalid,2"), Event::Ignore);
    assert_eq!(parse_event("workspace>>2"), Event::Ignore);
    assert_eq!(parse_event("focusedmonv2>>DP-1,2"), Event::Refresh);
    assert_eq!(parse_event("focusedmon>>DP-1,2"), Event::Ignore);
    assert_eq!(parse_event("urgent>>0x123"), Event::Refresh);
    assert_eq!(
        parse_event("submap>>Resize windows"),
        Event::Submap(Some("Resize windows".into()))
    );
    assert_eq!(parse_event("submap>>"), Event::Submap(None));
    assert_eq!(parse_event("submap>>reset"), Event::Submap(None));
    assert_eq!(parse_event("configreloaded>>"), Event::Ignore);
    assert_eq!(parse_event("windowtitle>>0x123"), Event::Ignore);
}

#[test]
fn parses_title_events_without_losing_commas() {
    assert_eq!(
        parse_event("windowtitlev2>>0xAbC,tmux:agent:codex (work, active)\n"),
        Event::Title {
            address: "abc".into(),
            title: "tmux:agent:codex (work, active)".into(),
        }
    );
    assert_eq!(parse_event("windowtitlev2>>0x123"), Event::Ignore);
}

#[test]
fn normalizes_hyprland_window_addresses() {
    assert_eq!(normalize_address("0xAbC"), Some("abc".into()));
    assert_eq!(normalize_address("ABC"), Some("abc".into()));
    assert_eq!(normalize_address("0x"), None);
}

#[test]
fn parses_the_current_submap_query() {
    assert_eq!(parse_submap_query(":\n").unwrap(), None);
    assert_eq!(parse_submap_query(":reset").unwrap(), None);
    assert_eq!(
        parse_submap_query(":Resize windows\n").unwrap(),
        Some("Resize windows".into())
    );
    assert!(parse_submap_query("Resize windows").is_err());
}

#[test]
fn title_events_only_match_the_active_window() {
    assert!(is_active_address("abc", Some("abc")));
    assert!(!is_active_address("abc", Some("def")));
    assert!(!is_active_address("abc", None));
}

#[test]
fn repeated_active_window_events_do_not_refresh() {
    assert!(!event_needs_refresh(
        &Event::ActiveWindow(Some("abc".into())),
        Some("abc")
    ));
    assert!(event_needs_refresh(
        &Event::ActiveWindow(Some("def".into())),
        Some("abc")
    ));
    assert!(event_needs_refresh(&Event::ActiveWindow(None), Some("abc")));
}

#[test]
fn coalesces_title_updates_until_the_rate_limit_expires() {
    let start = 10_000;
    let mut titles = TitleUpdates::default();

    titles.queue("first".into());
    assert_eq!(titles.take_ready(start), Some("first".into()));

    titles.queue("second".into());
    assert_eq!(titles.take_ready(start + TITLE_UPDATE_INTERVAL_MS / 2), None);
    titles.queue("latest".into());
    assert_eq!(
        titles.take_ready(start + TITLE_UPDATE_INTERVAL_MS),
        Some("latest".into())
    );
}

#[test]
fn clearing_title_updates_resets_the_rate_limit() {
    let start = 10_000;
    let mut titles = TitleUpdates::default();

    titles.queue("old window".into());
    assert_eq!(titles.take_ready(start), Some("old window".into()));
    titles.queue("stale".into());
    titles.clear();
    titles.queue("new window".into());

    assert_eq!(titles.take_ready(start), Some("new window".into()));
}

#[test]
fn workspace_state_only_rebuilds_for_identity_or_name_changes() {
    let state = State {
        workspaces: vec![Workspace {
            id: 1,
            name: "1".into(),
            urgent: false,
        }],
        active_id: Some(1),
        title: "one".into(),
        submap: None,
    };
    let mut changed = state.clone();
    changed.active_id = Some(2);
    changed.workspaces[0].urgent = true;
    changed.title = "two".into();
    assert!(!workspace_structure_changed(&state, &changed));

    changed.workspaces[0].name = "renamed".into();
    assert!(workspace_structure_changed(&state, &changed));
}

#[test]
fn builds_current_hyprland_workspace_dispatch() {
    assert_eq!(
        activation_command(&WorkspaceSelector::Id(2)),
        "dispatch hl.dsp.focus({ workspace = 2 })"
    );
    assert_eq!(
        activation_command(&WorkspaceSelector::Name("developer's \\ workspace".into())),
        "dispatch hl.dsp.focus({ workspace = 'name:developer\\'s \\\\ workspace' })"
    );
}

#[test]
fn the_event_loop_reacts_to_each_kind_of_event() {
    assert_eq!(react(Event::Workspace(4), Some("abc")), Reaction::ActiveWorkspace(4));
    assert_eq!(react(Event::Refresh, None), Reaction::Refresh);
    assert_eq!(
        react(Event::ActiveWindow(Some("abc".into())), Some("abc")),
        Reaction::Nothing
    );
    assert_eq!(react(Event::ActiveWindow(None), None), Reaction::Nothing);
    assert_eq!(
        react(Event::ActiveWindow(Some("def".into())), Some("abc")),
        Reaction::Refresh
    );
    assert_eq!(
        react(
            Event::Title {
                address: "abc".into(),
                title: "Editor".into()
            },
            Some("abc")
        ),
        Reaction::QueueTitle("Editor".into())
    );
    assert_eq!(
        react(
            Event::Title {
                address: "def".into(),
                title: "Other".into()
            },
            Some("abc")
        ),
        Reaction::Nothing
    );
    assert_eq!(
        react(Event::Submap(Some("resize".into())), None),
        Reaction::Submap(Some("resize".into()))
    );
    assert_eq!(react(Event::Ignore, None), Reaction::Nothing);
}

#[test]
fn named_workspaces_sort_by_name_after_numbered_ones() {
    let state = state_from_parts(
        vec![
            info(-2, "zeta", "DP-1", false),
            info(5, "5", "DP-1", false),
            info(-1, "alpha", "DP-1", false),
            info(0, "alpha", "DP-1", true),
            info(2, "2", "DP-1", false),
        ],
        ActiveWorkspace {
            id: 5,
            monitor: "DP-1".into(),
        },
        ActiveWindow {
            address: "0x1".into(),
            title: String::new(),
        },
        Some("resize".into()),
    );
    let order: Vec<(i64, bool)> = state.workspaces.iter().map(|w| (w.id, w.urgent)).collect();
    assert_eq!(order, vec![(2, false), (5, false), (-1, false), (0, true), (-2, false)]);
    assert_eq!(state.submap.as_deref(), Some("resize"));
}

#[test]
fn line_endings_do_not_change_an_event() {
    for line in ["workspacev2>>3,3", "submap>>resize", "windowtitlev2>>0x1,a, b", "urgent>>0x9"] {
        assert_eq!(parse_event(&format!("{line}\r\n")), parse_event(line));
        assert_eq!(parse_event(&format!("{line}\n")), parse_event(line));
    }
}

#[test]
fn buttons_select_by_id_or_by_name() {
    let numbered = Workspace {
        id: 3,
        name: "3".into(),
        urgent: false,
    };
    let special = Workspace {
        id: -98,
        name: "special:scratch".into(),
        urgent: true,
    };
    assert!(matches!(selector_for(&numbered), WorkspaceSelector::Id(3)));
    match selector_for(&special) {
        WorkspaceSelector::Name(name) => assert_eq!(name, "special:scratch"),
        WorkspaceSelector::Id(_) => panic!("special workspaces are selected by name"),
    }
    let state = State {
        workspaces: vec![numbered.clone(), special.clone()],
        active_id: Some(3),
        title: String::new(),
        submap: None,
    };
    assert_eq!(workspace_classes(&state, &numbered), (true, false));
    assert_eq!(workspace_classes(&state, &special), (false, true));
}

#[test]
fn only_shown_workspaces_are_asked_for_urgency() {
    let workspace = |name: &str, monitor: &str| WorkspaceInfo {
        id: 1,
        name: name.into(),
        monitor: monitor.into(),
        urgent: false,
    };
    assert!(is_shown(&workspace("1", "DP-1"), "DP-1"));
    assert!(!is_shown(&workspace("1", "HDMI-A-1"), "DP-1"));
    assert!(!is_shown(&workspace("special:scratch", "DP-1"), "DP-1"));
    assert!(urgent_reply("true\n"));
    assert!(urgent_reply("  true "));
    assert!(!urgent_reply("false\n"));
    assert!(!urgent_reply("truest"));
}
