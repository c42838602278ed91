use varde::notifications::time::{days_in_month, notification_time, LocalTime};

fn local(year: i32, month: i32, day: i32, hour: i32, minute: i32, day_of_week: i32) -> LocalTime {
    LocalTime {
        year,
        month,
        day,
        hour,
        minute,
        day_of_week,
    }
}

#[test]
fn formats_notification_times_by_calendar_distance() {
    // Thursday 13 August 2026, 18:00.
    let now = local(2026, 8, 13, 18, 0, 4);
    let format = |received: LocalTime, elapsed: i64| notification_time(elapsed, received, now);

    assert_eq!(format(local(2026, 8, 13, 18, 0, 4), 0), "now");
    assert_eq!(format(local(2026, 8, 13, 17, 59, 4), 60), "17:59");
    assert_eq!(format(local(2026, 8, 13, 9, 15, 4), 31_500), "09:15");
    assert_eq!(
        format(local(2026, 8, 12, 23, 45, 3), 65_700),
        "Yesterday · 23:45"
    );
    assert_eq!(format(local(2026, 8, 10, 8, 5, 1), 294_900), "Mon · 08:05");
    assert_eq!(format(local(2026, 8, 9, 8, 5, 7), 381_300), "9 Aug · 08:05");
    assert_eq!(format(local(2026, 1, 3, 8, 5, 6), 19_000_000), "3 Jan · 08:05");
    assert_eq!(
        format(local(2025, 12, 3, 8, 5, 3), 22_000_000),
        "3 Dec 2025 · 08:05"
    );
}

#[test]
fn a_future_time_reads_as_now() {
    let now = local(2026, 8, 13, 18, 0, 4);
    assert_eq!(notification_time(-300, local(2026, 8, 13, 18, 5, 4), now), "now");
}

#[test]
fn yesterday_crosses_months_and_years() {
    let new_year = local(2026, 1, 1, 9, 0, 4);
    assert_eq!(
        notification_time(40_000, local(2025, 12, 31, 22, 10, 3), new_year),
        "Yesterday · 22:10"
    );
    let march = local(2024, 3, 1, 9, 0, 5);
    assert_eq!(
        notification_time(40_000, local(2024, 2, 29, 22, 10, 4), march),
        "Yesterday · 22:10"
    );
}

#[test]
fn counts_the_days_of_each_month() {
    assert_eq!(days_in_month(2024, 2), 29);
    assert_eq!(days_in_month(2100, 2), 28);
    assert_eq!(days_in_month(2000, 2), 29);
    assert_eq!(days_in_month(2026, 4), 30);
    assert_eq!(days_in_month(2026, 12), 31);
}
