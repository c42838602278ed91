use std::collections::HashMap;

use varde::privacy::{
    apply_objects, display_name, format_tooltip, merged_state, normalize, privacy_usage,
    usage_state, video_device, Node, PropValue, State, Usage,
};

fn props(entries: &[(&str, &str)]) -> Vec<(String, PropValue)> {
    entries
        .iter()
        .map(|(key, value)| (key.to_string(), PropValue::Text(value.to_string())))
        .collect()
}

fn node(id: u64, state: &str, entries: &[(&str, &str)]) -> Node {
    Node {
        id: Some(id),
        node_type: Some("PipeWire:Interface:Node".into()),
        state: Some(state.into()),
        props: Some(props(entries)),
    }
}

fn parse_state(nodes: &[Node]) -> State {
    let mut usages = HashMap::new();
    apply_objects(&mut usages, nodes);
    usage_state(&usages)
}

fn empty() -> State {
    State::default()
}

#[test]
fn selects_running_privacy_nodes() {
    let state = parse_state(&[
        node(1, "running", &[("media.class", "Video/Source"), ("media.role", "Camera"), ("node.description", "Webcam")]),
        node(2, "running", &[("media.class", "Video/Source"), ("media.name", "xdph-streaming-123"), ("node.name", "xdg-desktop-portal-hyprland")]),
        node(3, "running", &[("media.class", "Stream/Input/Audio"), ("node.description", "Discord")]),
    ]);

    assert_eq!(state.cameras, ["Webcam"]);
    assert_eq!(state.screen_shares, ["Hyprland"]);
    assert_eq!(state.microphones, ["Discord"]);
}

#[test]
fn ignores_inactive_and_unrelated_nodes() {
    let state = parse_state(&[
        node(1, "suspended", &[("media.class", "Video/Source"), ("media.role", "Camera"), ("node.description", "Sleeping camera")]),
        node(2, "running", &[("media.class", "Video/Source"), ("node.name", "virtual-camera")]),
        node(3, "running", &[("media.class", "Stream/Input/Video"), ("application.name", "Browser")]),
        node(4, "idle", &[("media.class", "Stream/Input/Audio"), ("application.name", "Idle recorder")]),
        node(5, "running", &[("media.class", "Stream/Input/Audio"), ("stream.monitor", "true"), ("application.name", "Monitor")]),
    ]);

    assert_eq!(state, empty());
}

#[test]
fn applies_monitor_updates_and_removals() {
    let mut usages = HashMap::new();
    apply_objects(
        &mut usages,
        &[node(7, "running", &[("media.class", "Stream/Input/Audio"), ("application.name", "Recorder")])],
    );
    assert_eq!(usage_state(&usages).microphones, ["Recorder"]);

    let removed = Node {
        id: Some(7),
        node_type: None,
        state: None,
        props: None,
    };
    apply_objects(&mut usages, &[removed]);
    assert_eq!(usage_state(&usages), empty());
}

#[test]
fn sorts_and_deduplicates_source_names() {
    let state = parse_state(&[
        node(1, "running", &[("media.class", "Video/Source"), ("media.role", "Camera"), ("node.description", "Webcam B")]),
        node(2, "running", &[("media.class", "Video/Source"), ("media.role", "Camera"), ("node.description", "Webcam A")]),
        node(3, "running", &[("media.class", "Video/Source"), ("media.role", "Camera"), ("node.description", "Webcam A")]),
    ]);

    assert_eq!(state.cameras, ["Webcam A", "Webcam B"]);
}

#[test]
fn merges_pipewire_and_direct_camera_sources() {
    let pipewire = State {
        cameras: vec!["Webcam B".into(), "Webcam A".into()],
        ..State::default()
    };

    let state = merged_state(&pipewire, &["Webcam A".into(), "Webcam C".into()]);

    assert_eq!(state.cameras, ["Webcam A", "Webcam B", "Webcam C"]);
}

#[test]
fn recognizes_only_numbered_video_devices() {
    assert!(video_device("video0"));
    assert!(video_device("video12"));
    assert!(!video_device("video"));
    assert!(!video_device("video-camera"));
    assert!(!video_device("vid0"));
}

#[test]
fn uses_the_best_available_display_name() {
    let props = props(&[("application.name", "Browser"), ("node.description", "Ignored")]);

    assert_eq!(display_name(&props), "Browser");
}

#[test]
fn display_names_fall_back_in_order() {
    assert_eq!(display_name(&props(&[("node.name", "n"), ("media.name", "m")])), "m");
    assert_eq!(display_name(&props(&[])), "Unknown application");
    let other = vec![
        ("application.name".to_string(), PropValue::Other),
        ("node.name".to_string(), PropValue::Text("node".into())),
    ];
    assert_eq!(display_name(&other), "node");
}

#[test]
fn updates_replace_usages_in_place_and_nodes_without_ids_are_skipped() {
    let mut usages = HashMap::new();
    apply_objects(
        &mut usages,
        &[
            node(1, "running", &[("media.class", "Stream/Input/Audio"), ("application.name", "One")]),
            node(2, "running", &[("media.class", "Stream/Input/Audio"), ("application.name", "Two")]),
            node(1, "running", &[("media.class", "Video/Source"), ("media.role", "Camera"), ("application.name", "Cam")]),
            Node {
                id: None,
                node_type: Some("PipeWire:Interface:Node".into()),
                state: Some("running".into()),
                props: Some(props(&[("media.class", "Stream/Input/Audio")])),
            },
        ],
    );
    assert_eq!(usages.len(), 2);
    assert_eq!(usages[&1], Usage::Camera("Cam".into()));
    let state = usage_state(&usages);
    assert_eq!(state.microphones, ["Two"]);
    assert!(!state.is_empty());
    assert_eq!(
        privacy_usage(&node(9, "running", &[("media.class", "Audio/Sink")])),
        None
    );
}

#[test]
fn tooltips_list_the_names() {
    assert_eq!(
        format_tooltip("Camera in use", &["A".to_string(), "B".to_string()]),
        "Camera in use:\nA\nB"
    );
    assert_eq!(
        normalize(vec!["b".into(), "B".into(), "a".into(), "b".into()]),
        vec!["B", "a", "b"]
    );
}
