//! The clock module of the bar: dates in British English, the calendar's
//! statistics and the world clocks' offsets.
use vstd::prelude::*;

use crate::text::{decimal, push_char, push_decimal, push_str};

verus! {

broadcast use vstd::string::group_string_axioms;

/// Whether `year` is a leap year of the Gregorian calendar.
pub open spec fn spec_leap_year(year: int) -> bool {
    year % 4 == 0 && (year % 100 != 0 || year % 400 == 0)
}

/// A number and its negation have the same divisors.
proof fn lemma_divides_negation(x: int, m: int)
    requires
        m > 0,
    ensures
        (x % m == 0) == ((-x) % m == 0),
{
    vstd::arithmetic::div_mod::lemma_fundamental_div_mod(x, m);
    vstd::arithmetic::div_mod::lemma_fundamental_div_mod(-x, m);
    if x % m == 0 {
        assert(-x == (-(x / m)) * m) by (nonlinear_arith)
            requires
                x == m * (x / m),
        ;
        vstd::arithmetic::div_mod::lemma_mod_multiples_basic(-(x / m), m);
    }
    if (-x) % m == 0 {
        assert(x == (-((-x) / m)) * m) by (nonlinear_arith)
            requires
                -x == m * ((-x) / m),
        ;
        vstd::arithmetic::div_mod::lemma_mod_multiples_basic(-((-x) / m), m);
    }
}

pub fn is_leap_year(year: i32) -> (r: bool)
    ensures
        r == spec_leap_year(year as int),
{
    let a: u64 = if year < 0 {
        (-(year as i64)) as u64
    } else {
        year as u64
    };
    proof {
        lemma_divides_negation(year as int, 4);
        lemma_divides_negation(year as int, 100);
        lemma_divides_negation(year as int, 400);
    }
    a % 4 == 0 && (a % 100 != 0 || a % 400 == 0)
}

/// How far through its year a day is, in whole percent.
pub fn year_progress(year: i32, day_of_year: i32) -> (r: i32)
    requires
        1 <= day_of_year <= 366,
    ensures
        r as int == day_of_year * 100 / (if spec_leap_year(year as int) {
            366int
        } else {
            365int
        }),
{
    let days: i32 = if is_leap_year(year) {
        366
    } else {
        365
    };
    day_of_year * 100 / days
}

/// A selected day relative to today, `days` after it.
pub open spec fn spec_relative_date(days: int) -> Seq<char> {
    if days == 0 {
        "Today"@
    } else if days < 0 {
        "\u{2212}"@ + decimal((-days) as nat) + "d"@
    } else {
        "+"@ + decimal(days as nat) + "d"@
    }
}

pub fn relative_date(days: i64) -> (r: String)
    ensures
        r@ == spec_relative_date(days as int),
{
    if days == 0 {
        String::from_str("Today")
    } else if days < 0 {
        let mut r = String::from_str("\u{2212}");
        let magnitude: u128 = if days == i64::MIN {
            9223372036854775808
        } else {
            (-days) as u128
        };
        push_decimal(&mut r, magnitude);
        push_str(&mut r, "d");
        r
    } else {
        let mut r = String::from_str("+");
        push_decimal(&mut r, days as u128);
        push_str(&mut r, "d");
        r
    }
}

/// How a remote clock's day relates to the local one: the icon and the
/// style class.
pub fn day_relation(local: (i32, i32), remote: (i32, i32)) -> (r: (&'static str, &'static str))
    ensures
        (r.0@, r.1@) == if remote.0 < local.0 || (remote.0 == local.0 && remote.1 < local.1) {
            ("\u{2190}"@, "yesterday"@)
        } else if remote == local {
            ("\u{25cf}"@, "today"@)
        } else {
            ("\u{2192}"@, "tomorrow"@)
        },
{
    if remote.0 < local.0 || (remote.0 == local.0 && remote.1 < local.1) {
        ("\u{2190}", "yesterday")
    } else if remote.0 == local.0 && remote.1 == local.1 {
        ("\u{25cf}", "today")
    } else {
        ("\u{2192}", "tomorrow")
    }
}

/// Two digits, with a leading zero below ten.
pub open spec fn two_digits(n: nat) -> Seq<char> {
    if n < 10 {
        seq!['0'] + decimal(n)
    } else {
        decimal(n)
    }
}

pub fn push_two_digits(s: &mut String, n: u64)
    ensures
        final(s)@ == old(s)@ + two_digits(n as nat),
{
    if n < 10 {
        push_char(s, '0');
        push_decimal(s, n as u128);
        assert(old(s)@.push('0') + decimal(n as nat) == old(s)@ + (seq!['0'] + decimal(n as nat)));
    } else {
        push_decimal(s, n as u128);
    }
}

/// A world clock's offset from local time: `±0h`, or a sign, the hours and
/// the minutes when there are any.
pub open spec fn spec_format_offset(seconds: int) -> Seq<char> {
    if seconds == 0 {
        "\u{b1}0h"@
    } else {
        let sign = if seconds < 0 {
            "\u{2212}"@
        } else {
            "+"@
        };
        let total = (if seconds < 0 {
            -seconds
        } else {
            seconds
        }) / 60;
        let hours = total / 60;
        let minutes = total % 60;
        if minutes == 0 {
            sign + decimal(hours as nat) + "h"@
        } else {
            sign + decimal(hours as nat) + ":"@ + two_digits(minutes as nat)
        }
    }
}

pub fn format_offset(seconds: i64) -> (r: String)
    ensures
        r@ == spec_format_offset(seconds as int),
{
    if seconds == 0 {
        return String::from_str("\u{b1}0h");
    }
    let mut r = if seconds < 0 {
        String::from_str("\u{2212}")
    } else {
        String::from_str("+")
    };
    let magnitude: u64 = if seconds == i64::MIN {
        9223372036854775808
    } else if seconds < 0 {
        (-seconds) as u64
    } else {
        seconds as u64
    };
    let total = magnitude / 60;
    let hours = total / 60;
    let minutes = total % 60;
    push_decimal(&mut r, hours as u128);
    if minutes == 0 {
        push_str(&mut r, "h");
    } else {
        push_str(&mut r, ":");
        push_two_digits(&mut r, minutes);
    }
    r
}

pub open spec fn weekday_name(day_of_week: int) -> Seq<char> {
    if day_of_week == 1 {
        "Mon"@
    } else if day_of_week == 2 {
        "Tue"@
    } else if day_of_week == 3 {
        "Wed"@
    } else if day_of_week == 4 {
        "Thu"@
    } else if day_of_week == 5 {
        "Fri"@
    } else if day_of_week == 6 {
        "Sat"@
    } else {
        "Sun"@
    }
}

pub open spec fn month_name(month: int) -> Seq<char> {
    if month == 1 {
        "Jan"@
    } else if month == 2 {
        "Feb"@
    } else if month == 3 {
        "Mar"@
    } else if month == 4 {
        "Apr"@
    } else if month == 5 {
        "May"@
    } else if month == 6 {
        "Jun"@
    } else if month == 7 {
        "Jul"@
    } else if month == 8 {
        "Aug"@
    } else if month == 9 {
        "Sep"@
    } else if month == 10 {
        "Oct"@
    } else if month == 11 {
        "Nov"@
    } else {
        "Dec"@
    }
}

pub fn weekday(day_of_week: i32) -> (r: &'static str)
    requires
        1 <= day_of_week <= 7,
    ensures
        r@ == weekday_name(day_of_week as int),
{
    match day_of_week {
        1 => "Mon",
        2 => "Tue",
        3 => "Wed",
        4 => "Thu",
        5 => "Fri",
        6 => "Sat",
        _ => "Sun",
    }
}

/// The short English name of a month.
pub fn short_month_name(month: i32) -> (r: &'static str)
    requires
        1 <= month <= 12,
    ensures
        r@ == month_name(month as int),
{
    match month {
        1 => "Jan",
        2 => "Feb",
        3 => "Mar",
        4 => "Apr",
        5 => "May",
        6 => "Jun",
        7 => "Jul",
        8 => "Aug",
        9 => "Sep",
        10 => "Oct",
        11 => "Nov",
        _ => "Dec",
    }
}

/// Four digits, with leading zeros.
pub open spec fn four_digits(n: nat) -> Seq<char> {
    if n < 10 {
        "000"@ + decimal(n)
    } else if n < 100 {
        "00"@ + decimal(n)
    } else if n < 1000 {
        "0"@ + decimal(n)
    } else {
        decimal(n)
    }
}

/// The date the bar shows: `Tue 04 Aug`, or `04/08/2026` in the alternate
/// form.
pub open spec fn spec_format_date(
    year: int,
    month: int,
    day: int,
    day_of_week: int,
    alternate: bool,
) -> Seq<char> {
    if alternate {
        two_digits(day as nat) + "/"@ + two_digits(month as nat) + "/"@ + four_digits(year as nat)
    } else {
        weekday_name(day_of_week) + " "@ + two_digits(day as nat) + " "@ + month_name(month)
    }
}

pub fn format_date(year: i32, month: i32, day: i32, day_of_week: i32, alternate: bool) -> (r:
    String)
    requires
        0 <= year,
        1 <= month <= 12,
        0 <= day,
        1 <= day_of_week <= 7,
    ensures
        r@ == spec_format_date(
            year as int,
            month as int,
            day as int,
            day_of_week as int,
            alternate,
        ),
{
    let mut r = String::new();
    proof {
        reveal_strlit("");
    }
    if alternate {
        push_two_digits(&mut r, day as u64);
        push_str(&mut r, "/");
        push_two_digits(&mut r, month as u64);
        push_str(&mut r, "/");
        if year < 10 {
            push_str(&mut r, "000");
        } else if year < 100 {
            push_str(&mut r, "00");
        } else if year < 1000 {
            push_str(&mut r, "0");
        }
        push_decimal(&mut r, year as u128);
    } else {
        push_str(&mut r, weekday(day_of_week));
        push_str(&mut r, " ");
        push_two_digits(&mut r, day as u64);
        push_str(&mut r, " ");
        push_str(&mut r, short_month_name(month));
    }
    r
}

} // verus!
