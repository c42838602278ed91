//! When a notification arrived, as its card shows it: relative to the current
//! local date, in English.
use vstd::prelude::*;

use crate::clock::{
    is_leap_year, month_name, push_two_digits, short_month_name, spec_leap_year, two_digits,
    weekday, weekday_name,
};
use crate::text::{decimal, push_decimal, push_str};

verus! {

broadcast use vstd::string::group_string_axioms;

/// A local date and time of the Gregorian calendar; `day_of_week` runs from
/// Monday (1) to Sunday (7).
#[derive(Clone, Copy, Debug, PartialEq, Eq, Structural)]
pub struct LocalTime {
    pub year: i32,
    pub month: i32,
    pub day: i32,
    pub hour: i32,
    pub minute: i32,
    pub day_of_week: i32,
}

pub open spec fn spec_days_in_month(year: int, month: int) -> int {
    if month == 2 {
        if spec_leap_year(year) {
            29
        } else {
            28
        }
    } else if month == 4 || month == 6 || month == 9 || month == 11 {
        30
    } else {
        31
    }
}

/// A date as year, month and day.
pub type Date = (int, int, int);

pub open spec fn valid_date(d: Date) -> bool {
    1 <= d.1 <= 12 && 1 <= d.2 <= spec_days_in_month(d.0, d.1)
}

/// The day before `d`.
pub open spec fn previous_day(d: Date) -> Date {
    if d.2 > 1 {
        (d.0, d.1, d.2 - 1)
    } else if d.1 > 1 {
        (d.0, d.1 - 1, spec_days_in_month(d.0, d.1 - 1))
    } else {
        (d.0 - 1, 12, 31)
    }
}

/// The date `k` days before `d`.
pub open spec fn days_before(d: Date, k: nat) -> Date
    decreases k,
{
    if k == 0 {
        d
    } else {
        previous_day(days_before(d, (k - 1) as nat))
    }
}

pub open spec fn valid_time(t: LocalTime) -> bool {
    &&& 1 <= t.year <= 9999
    &&& valid_date((t.year as int, t.month as int, t.day as int))
    &&& 0 <= t.hour < 24
    &&& 0 <= t.minute < 60
    &&& 1 <= t.day_of_week <= 7
}

pub open spec fn date_of(t: LocalTime) -> Date {
    (t.year as int, t.month as int, t.day as int)
}

/// Whether `received` falls two or more days before `now` but still in the
/// week of `now`, which starts on Monday.
pub open spec fn earlier_this_week(received: LocalTime, now: LocalTime) -> bool {
    exists|k: nat| 2 <= k < now.day_of_week && #[trigger] days_before(date_of(now), k) == date_of(received)
}

/// The time a card shows for a notification that arrived `elapsed` seconds
/// before `now`, at local time `received`: `now` within the minute, the time
/// of day on the same date, `Yesterday` or the weekday earlier in the week,
/// and the date otherwise, with its year when that is not the current one.
pub open spec fn spec_notification_time(elapsed: int, received: LocalTime, now: LocalTime) -> Seq<
    char,
> {
    let time = two_digits(received.hour as nat) + ":"@ + two_digits(received.minute as nat);
    if elapsed < 60 {
        "now"@
    } else if date_of(received) == date_of(now) {
        time
    } else if date_of(received) == previous_day(date_of(now)) {
        "Yesterday \u{b7} "@ + time
    } else if earlier_this_week(received, now) {
        weekday_name(received.day_of_week as int) + " \u{b7} "@ + time
    } else if received.year == now.year {
        decimal(received.day as nat) + " "@ + month_name(received.month as int) + " \u{b7} "@
            + time
    } else {
        decimal(received.day as nat) + " "@ + month_name(received.month as int) + " "@ + decimal(
            received.year as nat,
        ) + " \u{b7} "@ + time
    }
}

pub fn days_in_month(year: i32, month: i32) -> (r: i32)
    requires
        1 <= month <= 12,
    ensures
        r == spec_days_in_month(year as int, month as int),
{
    if month == 2 {
        if is_leap_year(year) {
            29
        } else {
            28
        }
    } else if month == 4 || month == 6 || month == 9 || month == 11 {
        30
    } else {
        31
    }
}

fn day_before(d: (i32, i32, i32)) -> (r: (i32, i32, i32))
    requires
        d.0 > i32::MIN,
        1 <= d.1 <= 12,
        1 <= d.2,
    ensures
        (r.0 as int, r.1 as int, r.2 as int) == previous_day((d.0 as int, d.1 as int, d.2 as int)),
        d.0 - 1 <= r.0 <= d.0,
        1 <= r.1 <= 12,
        1 <= r.2,
{
    if d.2 > 1 {
        (d.0, d.1, d.2 - 1)
    } else if d.1 > 1 {
        (d.0, d.1 - 1, days_in_month(d.0, d.1 - 1))
    } else {
        (d.0 - 1, 12, 31)
    }
}

fn same_date(a: (i32, i32, i32), b: (i32, i32, i32)) -> (r: bool)
    ensures
        r == ((a.0 as int, a.1 as int, a.2 as int) == (b.0 as int, b.1 as int, b.2 as int)),
{
    a.0 == b.0 && a.1 == b.1 && a.2 == b.2
}

fn push_time(s: &mut String, t: LocalTime)
    requires
        0 <= t.hour,
        0 <= t.minute,
    ensures
        final(s)@ == old(s)@ + two_digits(t.hour as nat) + ":"@ + two_digits(t.minute as nat),
{
    push_two_digits(s, t.hour as u64);
    push_str(s, ":");
    push_two_digits(s, t.minute as u64);
}

/// The time a card shows for a notification; see `spec_notification_time`.
pub fn notification_time(elapsed: i64, received: LocalTime, now: LocalTime) -> (r: String)
    requires
        valid_time(received),
        valid_time(now),
    ensures
        r@ == spec_notification_time(elapsed as int, received, now),
{
    let mut r = String::new();
    proof {
        reveal_strlit("");
        reveal_strlit("now");
        reveal_strlit(":");
        reveal_strlit("Yesterday \u{b7} ");
        reveal_strlit(" \u{b7} ");
        reveal_strlit(" ");
    }
    if elapsed < 60 {
        push_str(&mut r, "now");
        return r;
    }
    let today = (now.year, now.month, now.day);
    let received_date = (received.year, received.month, received.day);
    if same_date(received_date, today) {
        push_time(&mut r, received);
        return r;
    }
    let mut day = day_before(today);
    if same_date(received_date, day) {
        push_str(&mut r, "Yesterday \u{b7} ");
        push_time(&mut r, received);
        return r;
    }
    let mut k: i32 = 1;
    assert(days_before(date_of(now), 1) == previous_day(days_before(date_of(now), 0)));
    let mut found = false;
    while k + 1 < now.day_of_week && !found
        invariant
            1 <= k <= 7,
            valid_time(now),
            received_date == (received.year, received.month, received.day),
            (day.0 as int, day.1 as int, day.2 as int) == days_before(date_of(now), k as nat),
            now.year - k <= day.0 <= now.year,
            1 <= day.1 <= 12,
            1 <= day.2,
            found ==> 2 <= k < now.day_of_week && date_of(received) == days_before(date_of(now), k as nat),
            !found ==> forall|j: nat| 2 <= j <= k ==> #[trigger] days_before(date_of(now), j) != date_of(received),
        decreases now.day_of_week - k,
    {
        day = day_before(day);
        k = k + 1;
        assert(days_before(date_of(now), k as nat) == previous_day(days_before(date_of(now), (k - 1) as nat)));
        if same_date(received_date, day) {
            found = true;
        }
    }
    if found {
        push_str(&mut r, weekday(received.day_of_week));
        push_str(&mut r, " \u{b7} ");
        push_time(&mut r, received);
        return r;
    }
    proof {
        if earlier_this_week(received, now) {
            let j = choose|j: nat| 2 <= j < now.day_of_week && #[trigger] days_before(date_of(now), j) == date_of(received);
            assert(days_before(date_of(now), j) != date_of(received));
        }
    }
    push_decimal(&mut r, received.day as u128);
    push_str(&mut r, " ");
    push_str(&mut r, short_month_name(received.month));
    if received.year != now.year {
        push_str(&mut r, " ");
        push_decimal(&mut r, received.year as u128);
    }
    push_str(&mut r, " \u{b7} ");
    push_time(&mut r, received);
    r
}

} // verus!
