//! The battery module of the bar: its icon, its time estimate and its
//! tooltip, from what the kernel's power-supply files say.
use vstd::prelude::*;

use crate::text::{decimal, push_decimal, push_str, str_eq};
use crate::clock::{push_two_digits, two_digits};

verus! {

broadcast use vstd::string::group_string_axioms;

/// How long until the battery is empty or full, in seconds.
#[derive(Clone, Copy, Debug, PartialEq, Eq, Structural)]
pub enum Estimate {
    Empty(u64),
    Full(u64),
}

/// A reading (now, full, rate) with all three values and a non-zero rate.
pub open spec fn usable_reading(t: (Option<u64>, Option<u64>, Option<u64>)) -> bool {
    &&& t.0 is Some
    &&& t.1 is Some
    &&& t.2 matches Some(rate) && rate != 0
}

fn is_usable_reading(t: (Option<u64>, Option<u64>, Option<u64>)) -> (r: bool)
    ensures
        r == usable_reading(t),
{
    t.0.is_some() && t.1.is_some() && match t.2 {
        Some(rate) => rate != 0,
        None => false,
    }
}

/// The estimate for a battery in state `status`: from the kernel's own time
/// field when it is positive, else from the first of the energy and charge
/// readings (now, full, rate) that has all three and a non-zero rate, when the result is at
/// least a second. Only charging and discharging batteries get one.
pub open spec fn spec_estimate(
    status: Seq<char>,
    time: Option<u64>,
    energy: (Option<u64>, Option<u64>, Option<u64>),
    charge: (Option<u64>, Option<u64>, Option<u64>),
) -> Option<Estimate> {
    let charging = status == "Charging"@;
    if !charging && status != "Discharging"@ {
        None
    } else if time matches Some(t) && t > 0 {
        Some(if charging {
            Estimate::Full(time->0)
        } else {
            Estimate::Empty(time->0)
        })
    } else {
        let reading = if usable_reading(energy) {
            Some(energy)
        } else if usable_reading(charge) {
            Some(charge)
        } else {
            None
        };
        match reading {
            Some((Some(now), Some(full), Some(rate))) => {
                let remaining: int = if charging {
                    if full >= now {
                        full - now
                    } else {
                        0
                    }
                } else {
                    now as int
                };
                if remaining * 3600 > u64::MAX {
                    None
                } else {
                    let seconds = remaining * 3600 / (rate as int);
                    if seconds > 0 {
                        Some(if charging {
                            Estimate::Full(seconds as u64)
                        } else {
                            Estimate::Empty(seconds as u64)
                        })
                    } else {
                        None
                    }
                }
            },
            _ => None,
        }
    }
}

pub fn estimate(
    status: &str,
    time: Option<u64>,
    energy: (Option<u64>, Option<u64>, Option<u64>),
    charge: (Option<u64>, Option<u64>, Option<u64>),
) -> (r: Option<Estimate>)
    ensures
        r == spec_estimate(status@, time, energy, charge),
{
    let charging = str_eq(status, "Charging");
    if !charging && !str_eq(status, "Discharging") {
        return None;
    }
    if let Some(t) = time {
        if t > 0 {
            return Some(if charging {
                Estimate::Full(t)
            } else {
                Estimate::Empty(t)
            });
        }
    }
    let reading = if is_usable_reading(energy) {
        Some(energy)
    } else if is_usable_reading(charge) {
        Some(charge)
    } else {
        None
    };
    match reading {
        Some((Some(now), Some(full), Some(rate))) => {
            let remaining: u64 = if charging {
                if full >= now {
                    full - now
                } else {
                    0
                }
            } else {
                now
            };
            match remaining.checked_mul(3600) {
                Some(scaled) => {
                    let seconds = scaled / rate;
                    if seconds > 0 {
                        Some(if charging {
                            Estimate::Full(seconds)
                        } else {
                            Estimate::Empty(seconds)
                        })
                    } else {
                        None
                    }
                },
                None => None,
            }
        },
        _ => None,
    }
}

/// A duration in whole minutes: `3h 12m`, or `45m` under an hour.
pub open spec fn spec_format_duration(seconds: nat) -> Seq<char> {
    let minutes = seconds / 60;
    if minutes >= 60 {
        decimal(minutes / 60) + "h "@ + two_digits(minutes % 60) + "m"@
    } else {
        decimal(minutes) + "m"@
    }
}

pub fn format_duration(seconds: u64) -> (r: String)
    ensures
        r@ == spec_format_duration(seconds as nat),
{
    let minutes = seconds / 60;
    let mut r = String::new();
    proof {
        reveal_strlit("");
    }
    if minutes >= 60 {
        push_decimal(&mut r, (minutes / 60) as u128);
        push_str(&mut r, "h ");
        push_two_digits(&mut r, minutes % 60);
        push_str(&mut r, "m");
    } else {
        push_decimal(&mut r, minutes as u128);
        push_str(&mut r, "m");
    }
    r
}

/// The tooltip: the estimate, then the power draw as the caller wrote it,
/// each on a line of its own.
pub open spec fn spec_tooltip(estimate: Option<Estimate>, power: Option<Seq<char>>) -> Seq<char> {
    let first: Option<Seq<char>> = match estimate {
        Some(Estimate::Empty(s)) => Some("Remaining  "@ + spec_format_duration(s as nat)),
        Some(Estimate::Full(s)) => Some("Full in    "@ + spec_format_duration(s as nat)),
        None => None,
    };
    let second: Option<Seq<char>> = match power {
        Some(p) => Some("Power      "@ + p + " W"@),
        None => None,
    };
    match (first, second) {
        (Some(a), Some(b)) => a + "\n"@ + b,
        (Some(a), None) => a,
        (None, Some(b)) => b,
        (None, None) => ""@,
    }
}

pub fn tooltip(estimate: Option<Estimate>, power: Option<&str>) -> (r: String)
    ensures
        r@ == spec_tooltip(
            estimate,
            match power {
                Some(p) => Some(p@),
                None => None,
            },
        ),
{
    let mut r = String::new();
    proof {
        reveal_strlit("");
    }
    match estimate {
        Some(Estimate::Empty(s)) => {
            push_str(&mut r, "Remaining  ");
            let d = format_duration(s);
            push_str(&mut r, d.as_str());
        },
        Some(Estimate::Full(s)) => {
            push_str(&mut r, "Full in    ");
            let d = format_duration(s);
            push_str(&mut r, d.as_str());
        },
        None => {},
    }
    match power {
        Some(p) => {
            if estimate.is_some() {
                push_str(&mut r, "\n");
            }
            push_str(&mut r, "Power      ");
            push_str(&mut r, p);
            push_str(&mut r, " W");
        },
        None => {},
    }
    r
}

pub open spec fn level_icon(tenth: int) -> Seq<char> {
    if tenth == 0 {
        "\u{f008e}"@
    } else if tenth == 1 {
        "\u{f007a}"@
    } else if tenth == 2 {
        "\u{f007b}"@
    } else if tenth == 3 {
        "\u{f007c}"@
    } else if tenth == 4 {
        "\u{f007d}"@
    } else if tenth == 5 {
        "\u{f007e}"@
    } else if tenth == 6 {
        "\u{f007f}"@
    } else if tenth == 7 {
        "\u{f0080}"@
    } else if tenth == 8 {
        "\u{f0081}"@
    } else if tenth == 9 {
        "\u{f0082}"@
    } else {
        "\u{f0079}"@
    }
}

/// The battery icon: charging, full or unknown states first, then a low
/// warning below 20%, then the level in steps of ten.
pub open spec fn spec_icon(status: Seq<char>, capacity: u8) -> Seq<char> {
    if status == "Charging"@ {
        "\u{f0084}"@
    } else if status == "Full"@ {
        "\u{f0079}"@
    } else if status != "Discharging"@ {
        "\u{f06a5}"@
    } else if capacity < 20 {
        "\u{f0083}"@
    } else {
        level_icon(if capacity / 10 < 10 {
            capacity / 10
        } else {
            10
        } as int)
    }
}

pub fn icon(status: &str, capacity: u8) -> (r: &'static str)
    ensures
        r@ == spec_icon(status@, capacity),
{
    if str_eq(status, "Charging") {
        return "\u{f0084}";
    }
    if str_eq(status, "Full") {
        return "\u{f0079}";
    }
    if !str_eq(status, "Discharging") {
        return "\u{f06a5}";
    }
    if capacity < 20 {
        return "\u{f0083}";
    }
    let tenth = if capacity / 10 < 10 {
        capacity / 10
    } else {
        10
    };
    match tenth {
        0 => "\u{f008e}",
        1 => "\u{f007a}",
        2 => "\u{f007b}",
        3 => "\u{f007c}",
        4 => "\u{f007d}",
        5 => "\u{f007e}",
        6 => "\u{f007f}",
        7 => "\u{f0080}",
        8 => "\u{f0081}",
        9 => "\u{f0082}",
        _ => "\u{f0079}",
    }
}

/// Whether the battery is low enough to warn: under 20% and not charging.
pub fn critical(status: &str, capacity: u8) -> (r: bool)
    ensures
        r == (capacity < 20 && status@ != "Charging"@),
{
    capacity < 20 && !str_eq(status, "Charging")
}

} // verus!
