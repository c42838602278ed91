use std::time::Instant;

use varde::network::query::{
    connection_state, lists_station, parse_iwctl_stations, WifiStation, parse_wifi_station, rssi_to_percent, select_address, AddressInfo,
};
use varde::text::{parse_i32, parse_u32, parse_u64};
use varde::network::state::{
    traffic, wifi_band, wifi_generation, wifi_icon, State, TrafficSample, TrafficText,
};

fn chars(s: &str) -> Vec<char> {
    s.chars().collect()
}

#[test]
fn parses_iwd_station_details() {
    let stations = "  Name                  State\n  wlan0                 connected\n";
    assert_eq!(parse_iwctl_stations(stations), vec!["wlan0"]);

    let station = "Connected network     Home\nFrequency             5640\nAverageRSSI           -62 dBm\nRxMode                802.11ax\n";
    let station = parse_wifi_station(station).unwrap();
    assert_eq!(station.network, "Home");
    assert_eq!(station.mode, "802.11ax");
    assert_eq!(station.frequency, 5640);
    assert_eq!(station.signal, 76);
}

#[test]
fn state_does_not_compare_traffic_across_interfaces() {
    let previous = TrafficSample {
        interface: "wlan0".into(),
        received: 1,
        sent: 1,
        at: Instant::now(),
    };
    assert_eq!(
        traffic("eth0", 10_000, 10_000, Some(&previous)),
        TrafficText::Done("  —    —".into())
    );
}

#[test]
fn names_wifi_generations() {
    assert_eq!(wifi_generation("802.11ax"), "Wi-Fi 6");
    assert_eq!(wifi_generation("802.11g"), "802.11g");
}

#[test]
fn names_wifi_bands() {
    assert_eq!(wifi_band(2412), "2.4G");
    assert_eq!(wifi_band(5640), "5G");
    assert_eq!(wifi_band(5955), "6G");
}

#[test]
fn converts_rssi_to_a_percentage() {
    assert_eq!(rssi_to_percent(-62), 76);
    assert_eq!(rssi_to_percent(-100), 0);
    assert_eq!(rssi_to_percent(-120), 0);
    assert_eq!(rssi_to_percent(-50), 100);
    assert_eq!(rssi_to_percent(-20), 100);
    assert_eq!(rssi_to_percent(i32::MIN), 0);
    assert_eq!(rssi_to_percent(i32::MAX), 100);
}

#[test]
fn lists_only_connected_stations() {
    let stations = "\u{1b}[1m  Name  State\u{1b}[0m\n  wlan0  disconnected\n  wlan1  connected\n";
    assert_eq!(parse_iwctl_stations(stations), vec!["wlan1"]);
    assert!(parse_iwctl_stations("").is_empty());
}

#[test]
fn incomplete_station_details_are_rejected() {
    assert!(parse_wifi_station("Connected network  Home\nFrequency  5640\n").is_none());
    assert!(parse_wifi_station(
        "Connected network  Home\nFrequency  high\nAverageRSSI  -62 dBm\nRxMode  802.11ac\n"
    )
    .is_none());
}

#[test]
fn parses_decimal_integers() {
    assert_eq!(parse_i32(&chars("-62")), Some(-62));
    assert_eq!(parse_i32(&chars("+7")), Some(7));
    assert_eq!(parse_i32(&chars("-2147483648")), Some(i32::MIN));
    assert_eq!(parse_i32(&chars("2147483648")), None);
    assert_eq!(parse_i32(&chars("")), None);
    assert_eq!(parse_i32(&chars("-")), None);
    assert_eq!(parse_u32(&chars("5640")), Some(5640));
    assert_eq!(parse_u32(&chars("4294967296")), None);
    assert_eq!(parse_u32(&chars("-1")), None);
    assert_eq!(parse_u64(&chars("18446744073709551615")), Some(u64::MAX));
    assert_eq!(parse_u64(&chars("18446744073709551616")), None);
    assert_eq!(parse_u64(&chars("+42")), Some(42));
}

#[test]
fn selects_the_first_global_ipv4_address() {
    let address = |family: &str, local: &str, prefixlen: u8, scope: &str| AddressInfo {
        family: family.into(),
        local: local.into(),
        prefixlen,
        scope: scope.into(),
    };
    assert_eq!(
        select_address(&vec![
            address("inet6", "fe80::1", 64, "link"),
            address("inet", "127.0.0.1", 8, "host"),
            address("inet", "192.168.1.4", 24, "global"),
            address("inet", "10.0.0.2", 8, "global"),
        ]),
        Some("192.168.1.4/24".into())
    );
    assert_eq!(select_address(&vec![]), None);
}

#[test]
fn chooses_wifi_icons_in_steps_of_twenty() {
    assert_eq!(wifi_icon(0), "\u{f092f}");
    assert_eq!(wifi_icon(21), "\u{f091f}");
    assert_eq!(wifi_icon(60), "\u{f0922}");
    assert_eq!(wifi_icon(80), "\u{f0925}");
    assert_eq!(wifi_icon(81), "\u{f0928}");
}

#[test]
fn describes_connections() {
    let wifi = State::Wifi {
        interface: "wlan0".into(),
        network: "Home".into(),
        mode: "802.11ax".into(),
        frequency: 5640,
        signal: 76,
        address: "192.168.1.4/24".into(),
        received: 10,
        sent: 10,
    };
    assert_eq!(wifi.class(), "");
    assert_eq!(wifi.icon(), "\u{f0925}");
    assert_eq!(
        wifi.tooltip(None),
        TrafficText::Done(
            "Home \u{b7} Wi-Fi 6 \u{b7} 5G\n\u{f0a60}  192.168.1.4/24\n\u{f0d7}  \u{2014}  \u{f0d8}  \u{2014}".into()
        )
    );
    let sample = wifi.traffic_sample().unwrap();
    assert_eq!((sample.interface.as_str(), sample.received, sample.sent), ("wlan0", 10, 10));
    assert_eq!(State::Disconnected.class(), "disconnected");
    assert_eq!(State::Disconnected.tooltip(None), TrafficText::Done("Disconnected".into()));
    assert!(State::Disconnected.traffic_sample().is_none());
    let wired = State::Ethernet {
        interface: "eth0".into(),
        address: "10.0.0.2/8".into(),
        received: 0,
        sent: 0,
    };
    assert_eq!(wired.icon(), "\u{f0200}");
    assert_eq!(
        wired.tooltip(None),
        TrafficText::Done(
            "Ethernet \u{b7} eth0\n\u{f0a60}  10.0.0.2/8\n\u{f0d7}  \u{2014}  \u{f0d8}  \u{2014}".into()
        )
    );
}

fn text_field(value: &serde_json::Value, name: &str) -> Option<String> {
    value.get(name).and_then(|field| field.as_str()).map(str::to_string)
}

#[test]
fn parses_ip_json() {
    let routes: serde_json::Value =
        serde_json::from_str(r#"[{"dev":"wlan0","prefsrc":"192.168.1.4"}]"#).unwrap();
    let route = &routes[0];
    assert_eq!(
        (text_field(route, "dev"), text_field(route, "prefsrc")),
        (Some("wlan0".into()), Some("192.168.1.4".into()))
    );

    let links: serde_json::Value = serde_json::from_str(
        r#"[{"addr_info":[{"family":"inet","local":"192.168.1.4","prefixlen":24,"scope":"global"}]}]"#,
    )
    .unwrap();
    let addresses = links[0]["addr_info"]
        .as_array()
        .unwrap()
        .iter()
        .map(|info| AddressInfo {
            family: text_field(info, "family").unwrap(),
            local: text_field(info, "local").unwrap(),
            prefixlen: info["prefixlen"].as_u64().unwrap() as u8,
            scope: text_field(info, "scope").unwrap(),
        })
        .collect::<Vec<_>>();
    assert_eq!(select_address(&addresses), Some("192.168.1.4/24".into()));
}

#[test]
fn finds_the_route_device_among_connected_stations() {
    let stations = parse_iwctl_stations("  Name                  State\n  wlan0                 connected\n");
    assert!(lists_station(&stations, "wlan0"));
    assert!(!lists_station(&stations, "eth0"));
    assert!(!lists_station(&Vec::new(), "wlan0"));
}

#[test]
fn assembles_the_connection_from_route_counters_and_station() {
    assert!(matches!(
        connection_state(None, Some((1, 2)), None, None),
        State::Disconnected
    ));
    assert!(matches!(
        connection_state(Some(("eth0".into(), None)), None, None, None),
        State::Disconnected
    ));
    match connection_state(
        Some(("eth0".into(), Some("10.0.0.2".into()))),
        Some((5, 6)),
        None,
        None,
    ) {
        State::Ethernet { interface, address, received, sent } => {
            assert_eq!(interface, "eth0");
            assert_eq!(address, "10.0.0.2");
            assert_eq!((received, sent), (5, 6));
        }
        _ => panic!("expected an Ethernet connection"),
    }
    let station = WifiStation {
        network: "Home".into(),
        mode: "802.11ax".into(),
        frequency: 5640,
        signal: 76,
    };
    match connection_state(
        Some(("wlan0".into(), Some("192.168.1.4".into()))),
        Some((7, 8)),
        Some("192.168.1.4/24".into()),
        Some(station),
    ) {
        State::Wifi { interface, network, mode, frequency, signal, address, received, sent } => {
            assert_eq!(interface, "wlan0");
            assert_eq!(network, "Home");
            assert_eq!(mode, "802.11ax");
            assert_eq!((frequency, signal), (5640, 76));
            assert_eq!(address, "192.168.1.4/24");
            assert_eq!((received, sent), (7, 8));
        }
        _ => panic!("expected a Wi-Fi connection"),
    }
    match connection_state(Some(("eth1".into(), None)), Some((0, 0)), None, None) {
        State::Ethernet { address, .. } => assert_eq!(address, ""),
        _ => panic!("expected an Ethernet connection"),
    }
}


fn rates_of(text: TrafficText) -> (String, u64, u64) {
    match text {
        TrafficText::Rates { prefix, received, sent, .. } => (prefix, received, sent),
        TrafficText::Done(text) => panic!("expected rates, got {text}"),
    }
}

#[test]
fn rates_use_the_counters_of_the_same_interface() {
    let previous = TrafficSample::new("wlan0".into(), 1_000, 5_000);
    assert_eq!(
        rates_of(traffic("wlan0", 1_000 + 250_000, 4_000, Some(&previous))),
        (String::new(), 250_000, 0)
    );
    assert_eq!(
        traffic("wlan0", 1, 1, None),
        TrafficText::Done("\u{f0d7}  \u{2014}  \u{f0d8}  \u{2014}".into())
    );
}

#[test]
fn the_tooltip_ends_with_the_traffic_of_its_own_counters() {
    let previous = TrafficSample::new("wlan0".into(), 100, 50);
    let wifi = State::Wifi {
        interface: "wlan0".into(),
        network: "Home".into(),
        mode: "802.11ax".into(),
        frequency: 5640,
        signal: 76,
        address: "10.0.0.2/8".into(),
        received: 1_100,
        sent: 70,
    };
    assert_eq!(
        rates_of(wifi.tooltip(Some(&previous))),
        ("Home \u{b7} Wi-Fi 6 \u{b7} 5G\n\u{f0a60}  10.0.0.2/8\n".to_string(), 1_000, 20)
    );
    let other = TrafficSample::new("eth0".into(), 0, 0);
    assert_eq!(
        wifi.tooltip(Some(&other)),
        TrafficText::Done(
            "Home \u{b7} Wi-Fi 6 \u{b7} 5G\n\u{f0a60}  10.0.0.2/8\n\u{f0d7}  \u{2014}  \u{f0d8}  \u{2014}".into()
        )
    );
}
