use varde::bluetooth::{
    device, parse_battery, power_toggle_command, parse_controller, parse_devices, state, Activity, Device, State,
};

#[test]
fn bluetooth_parses_controller_devices_and_battery() {
    let controller = "Controller 00:11:22:33:44:55 (public)\n\tPowered: yes\n\tDiscoverable: yes\n\tDiscovering: no\n";
    assert_eq!(
        parse_controller(controller),
        Some((true, Activity::Discoverable))
    );
    assert_eq!(
        parse_devices("Device AA:BB:CC:DD:EE:FF Headphones\n"),
        vec![("AA:BB:CC:DD:EE:FF".to_string(), "Headphones".to_string())]
    );
    assert_eq!(parse_battery("Battery Percentage: 0x64 (100)"), Some(100));
}

#[test]
fn tooltip_lists_connected_device_names() {
    let state = State::Connected(
        vec![
            Device {
                alias: "Headphones".into(),
                battery: Some(80),
            },
            Device {
                alias: "Mouse".into(),
                battery: None,
            },
        ],
        Activity::Idle,
    );
    assert_eq!(state.tooltip(), "Connected\nHeadphones  80%\nMouse");
}

#[test]
fn discovering_takes_precedence_over_discoverable() {
    let controller = "Powered: yes\nDiscoverable: yes\nDiscovering: yes\n";
    assert_eq!(
        parse_controller(controller),
        Some((true, Activity::Discovering))
    );
}

#[test]
fn controllers_without_power_state_are_missing() {
    assert_eq!(parse_controller("Controller 00:11 (public)\n"), None);
    assert_eq!(parse_controller("\u{1b}[0;94mPowered: no\u{1b}[0m\n"), Some((false, Activity::Idle)));
}

#[test]
fn device_lines_need_an_address_and_an_alias() {
    assert_eq!(
        parse_devices("  Device AA:BB Two Words \nDevice CC:DD\nController EE:FF laptop\n"),
        vec![("AA:BB".to_string(), "Two Words".to_string())]
    );
}

#[test]
fn battery_levels_come_from_parentheses_or_the_first_word() {
    assert_eq!(parse_battery("Battery Percentage: 55"), Some(55));
    assert_eq!(parse_battery("Battery Percentage: 0x64 (abc)"), None);
    assert_eq!(parse_battery("Battery Percentage: 300"), None);
    assert_eq!(parse_battery("Name: mouse\n"), None);
    assert_eq!(device("Mouse".into(), Some("Battery Percentage: 0x32 (50)")).battery, Some(50));
    assert_eq!(device("Mouse".into(), None).battery, None);
}

#[test]
fn the_state_follows_the_controller_and_devices() {
    assert_eq!(state(None, vec![]), State::NoController);
    assert_eq!(state(Some("nothing"), vec![]), State::NoController);
    assert_eq!(state(Some("Powered: no\n"), vec![]), State::Disabled);
    assert_eq!(state(Some("Powered: yes\n"), vec![]), State::Ready(Activity::Idle));
    let connected = state(
        Some("Powered: yes\nDiscoverable: yes\n"),
        vec![Device {
            alias: "Keyboard".into(),
            battery: None,
        }],
    );
    assert_eq!(connected.class(), "discoverable");
    assert_eq!(connected.icon(), "\u{f00b1}");
    assert_eq!(connected.powered(), Some(true));
    assert_eq!(State::Disabled.class(), "disabled");
    assert_eq!(State::Disabled.tooltip(), "Bluetooth disabled");
    assert_eq!(State::NoController.powered(), None);
    assert_eq!(State::Ready(Activity::Discovering).tooltip(), "No devices connected");
}

#[test]
fn right_click_toggles_controller_power() {
    assert_eq!(power_toggle_command(Some(true)), Some("bluetoothctl power off"));
    assert_eq!(power_toggle_command(Some(false)), Some("bluetoothctl power on"));
    assert_eq!(power_toggle_command(None), None);
}
