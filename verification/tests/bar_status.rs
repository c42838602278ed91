use varde::audio::{parse_device, tooltip as audio_tooltip, truncate, volume_bar, volume_icon, volume_reading};
use varde::battery::{
    critical, estimate, format_duration, icon as battery_icon, tooltip as battery_tooltip,
    Estimate,
};
use varde::clock::{
    day_relation, format_date, format_offset, is_leap_year, relative_date, short_month_name,
    year_progress,
};

#[test]
fn audio_parses_muted_volume() {
    let (volume, muted) = volume_reading("Volume: 0.50 [MUTED]");
    assert_eq!(volume.as_deref(), Some("0.50"));
    assert!(muted);
    let (volume, muted) = volume_reading("Volume: 0.75");
    assert_eq!(volume.as_deref(), Some("0.75"));
    assert!(!muted);
    assert_eq!(volume_reading("Volume:").0, None);
}

#[test]
fn parses_output_device() {
    assert_eq!(
        parse_device("  * node.description = \"Scarlett 2i2 Headphones\"\n"),
        Some("Scarlett 2i2 Headphones".into())
    );
}

#[test]
fn caps_output_device_name() {
    assert_eq!(
        truncate("Scarlett 2i2 4th Gen Headphones / Line 1-2", 16),
        "Scarlett 2i2 4t…"
    );
}

#[test]
fn formats_volume_bar() {
    assert_eq!(volume_bar(0), "[----------]");
    assert_eq!(volume_bar(50), "[#####-----]");
    assert_eq!(volume_bar(100), "[##########]");
}

#[test]
fn audio_icons_and_tooltip_follow_the_volume() {
    assert_eq!(volume_icon(80, true), "\u{f0581}");
    assert_eq!(volume_icon(33, false), "\u{f057f}");
    assert_eq!(volume_icon(34, false), "\u{f0580}");
    assert_eq!(volume_icon(67, false), "\u{f057e}");
    assert_eq!(volume_bar(4), "[----------]");
    assert_eq!(volume_bar(255), "[##########]");
    assert_eq!(
        audio_tooltip(50, true, Some("Speakers")),
        "Output  Speakers\nVolume  [#####-----] 50% muted"
    );
    assert_eq!(audio_tooltip(7, false, None), "Volume  [#---------] 7%");
    assert_eq!(truncate("short", 16), "short");
    assert_eq!(parse_device("id 52\n"), None);
    assert_eq!(
        parse_device("node.description = plain\nnode.description = \"later\"\n"),
        Some("plain".into())
    );
}

#[test]
fn formats_battery_tooltip() {
    let estimate = Some(Estimate::Empty(3 * 3600 + 12 * 60));
    assert_eq!(
        battery_tooltip(estimate, Some("8.2")),
        "Remaining  3h 12m\nPower      8.2 W"
    );
}

#[test]
fn battery_estimates_prefer_the_kernel_time() {
    let none = (None, None, None);
    assert_eq!(estimate("Charging", Some(600), none, none), Some(Estimate::Full(600)));
    assert_eq!(estimate("Full", Some(600), none, none), None);
    assert_eq!(
        estimate("Discharging", Some(0), (Some(20), Some(50), Some(10)), none),
        Some(Estimate::Empty(7200))
    );
    assert_eq!(
        estimate("Charging", None, (Some(20), Some(50), Some(0)), (Some(1), Some(4), Some(3))),
        Some(Estimate::Full(3600))
    );
    assert_eq!(
        estimate("Charging", None, (None, Some(50), Some(10)), (Some(1), Some(4), Some(3))),
        Some(Estimate::Full(3600))
    );
    assert_eq!(estimate("Charging", None, (Some(60), Some(50), Some(10)), none), None);
    assert_eq!(estimate("Discharging", None, (Some(u64::MAX), Some(1), Some(1)), none), None);
}

#[test]
fn battery_icons_and_durations() {
    assert_eq!(battery_icon("Charging", 5), "\u{f0084}");
    assert_eq!(battery_icon("Full", 100), "\u{f0079}");
    assert_eq!(battery_icon("Unknown", 50), "\u{f06a5}");
    assert_eq!(battery_icon("Discharging", 19), "\u{f0083}");
    assert_eq!(battery_icon("Discharging", 55), "\u{f007e}");
    assert_eq!(battery_icon("Discharging", 100), "\u{f0079}");
    assert!(critical("Discharging", 19));
    assert!(!critical("Charging", 19));
    assert_eq!(format_duration(59), "0m");
    assert_eq!(format_duration(3600 + 5 * 60), "1h 05m");
    assert_eq!(battery_tooltip(None, None), "");
    assert_eq!(battery_tooltip(Some(Estimate::Full(1800)), None), "Full in    30m");
}

#[test]
fn clock_formats_en_gb_date() {
    assert_eq!(format_date(2026, 8, 4, 2, false), "Tue 04 Aug");
    assert_eq!(format_date(2026, 8, 4, 2, true), "04/08/2026");
}

#[test]
fn year_progress_reaches_100_on_last_day() {
    assert_eq!(year_progress(2024, 366), 100);
    assert_eq!(year_progress(2023, 365), 100);
    assert_eq!(year_progress(2024, 183), 50);
}

#[test]
fn describes_selected_date_relative_to_today() {
    assert_eq!(relative_date(0), "Today");
    assert_eq!(relative_date(1), "+1d");
    assert_eq!(relative_date(-3), "\u{2212}3d");
}

#[test]
fn formats_world_clock_offsets() {
    assert_eq!(format_offset(0), "±0h");
    assert_eq!(format_offset(12_600), "+3:30");
    assert_eq!(format_offset(-21_600), "−6h");
}

#[test]
fn calendar_rules() {
    assert!(is_leap_year(2000));
    assert!(!is_leap_year(1900));
    assert!(is_leap_year(2024));
    assert!(!is_leap_year(2023));
    assert_eq!(short_month_name(12), "Dec");
    assert_eq!(day_relation((2026, 10), (2026, 9)), ("\u{2190}", "yesterday"));
    assert_eq!(day_relation((2026, 10), (2026, 10)), ("\u{25cf}", "today"));
    assert_eq!(day_relation((2026, 365), (2027, 1)), ("\u{2192}", "tomorrow"));
    assert_eq!(format_offset(-19_800 - 60), "\u{2212}5:31");
}

#[test]
fn chooses_waybar_battery_icons() {
    assert_eq!(battery_icon("Discharging", 10), "󰂃");
    assert_eq!(battery_icon("Discharging", 55), "󰁾");
    assert_eq!(battery_icon("Charging", 55), "󰂄");
}
