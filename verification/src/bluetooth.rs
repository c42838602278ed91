//! The Bluetooth module of the bar: what `bluetoothctl` says of the
//! controller and the connected devices, and how the module shows it.
use vstd::prelude::*;

use crate::output::{property, spec_property, spec_strip_ansi, strip_ansi};
use crate::text::{
    chars_of, decimal, has_prefix, lines, lines_of, parse_digits, push_decimal, push_str,
    spec_split_once, split_once, starts_with, str_eq, string_of, trim, trimmed, unsigned_text,
    words, words_of, slice_of,
};

verus! {

broadcast use vstd::string::group_string_axioms;

/// Whether the controller is visible to or looking for other devices.
#[derive(Clone, Copy, Debug, PartialEq, Eq, Structural)]
pub enum Activity {
    Idle,
    Discoverable,
    Discovering,
}

/// A connected device.
#[derive(Debug, PartialEq, Eq)]
pub struct Device {
    pub alias: String,
    pub battery: Option<u8>,
}

/// What the module shows.
#[derive(Debug, PartialEq, Eq)]
pub enum State {
    NoController,
    Disabled,
    Ready(Activity),
    Connected(Vec<Device>, Activity),
}

/// Whether a property of the controller is `yes`.
pub open spec fn says_yes(text: Seq<char>, name: Seq<char>) -> bool {
    spec_property(text, name) == Some("yes"@)
}

/// What `bluetoothctl show` says: whether the controller is powered, and
/// what it is doing (discovering wins over discoverable); none without a
/// `Powered:` line.
pub open spec fn spec_controller(text: Seq<char>) -> Option<(bool, Activity)> {
    let t = spec_strip_ansi(text);
    match spec_property(t, "Powered:"@) {
        None => None,
        Some(p) => Some(
            (
                p == "yes"@,
                if says_yes(t, "Discovering:"@) {
                    Activity::Discovering
                } else if says_yes(t, "Discoverable:"@) {
                    Activity::Discoverable
                } else {
                    Activity::Idle
                },
            ),
        ),
    }
}

fn yes(value: &Option<String>) -> (r: bool)
    ensures
        r == (*value matches Some(v) && v@ == "yes"@),
{
    match value {
        Some(v) => str_eq(v.as_str(), "yes"),
        None => false,
    }
}

pub fn parse_controller(text: &str) -> (r: Option<(bool, Activity)>)
    ensures
        r == spec_controller(text@),
{
    let t = strip_ansi(text);
    let powered = match property(t.as_str(), "Powered:") {
        Some(p) => str_eq(p.as_str(), "yes"),
        None => return None,
    };
    let activity = if yes(&property(t.as_str(), "Discovering:")) {
        Activity::Discovering
    } else if yes(&property(t.as_str(), "Discoverable:")) {
        Activity::Discoverable
    } else {
        Activity::Idle
    };
    Some((powered, activity))
}

/// The address and alias of the device a line of `bluetoothctl devices`
/// names: `Device ADDRESS ALIAS`, split at the first space after the word.
pub open spec fn spec_device_line(line: Seq<char>) -> Option<(Seq<char>, Seq<char>)> {
    let t = trim(line);
    if has_prefix(t, "Device "@) {
        spec_split_once(t.skip(7), " "@)
    } else {
        None
    }
}

/// The devices the lines name, in order.
pub open spec fn spec_devices(ls: Seq<Seq<char>>) -> Seq<(Seq<char>, Seq<char>)>
    decreases ls.len(),
{
    if ls.len() == 0 {
        seq![]
    } else {
        let rest = spec_devices(ls.drop_last());
        match spec_device_line(ls.last()) {
            Some(d) => rest.push(d),
            None => rest,
        }
    }
}

pub open spec fn pair_texts(ps: Seq<(String, String)>) -> Seq<(Seq<char>, Seq<char>)> {
    ps.map_values(|p: (String, String)| (p.0@, p.1@))
}

fn device_line(line: &Vec<char>) -> (r: Option<(String, String)>)
    ensures
        match r {
            Some((a, b)) => spec_device_line(line@) == Some((a@, b@)),
            None => spec_device_line(line@) is None,
        },
{
    proof {
        reveal_strlit("Device ");
    }
    let t = trimmed(line);
    if !starts_with(&t, &chars_of("Device ")) {
        return None;
    }
    let rest = slice_of(&t, 7, t.len());
    assert(t@.subrange(7, t@.len() as int) == t@.skip(7));
    match split_once(&rest, &chars_of(" ")) {
        Some((a, b)) => Some((string_of(&a), string_of(&b))),
        None => None,
    }
}

/// The connected devices `bluetoothctl devices Connected` lists: address
/// and alias of each.
pub fn parse_devices(text: &str) -> (r: Vec<(String, String)>)
    ensures
        pair_texts(r@) == spec_devices(lines(spec_strip_ansi(text@))),
{
    let t = strip_ansi(text);
    let ls = lines_of(&chars_of(t.as_str()));
    let ghost sls = lines(t@);
    let mut r: Vec<(String, String)> = Vec::new();
    let mut i: usize = 0;
    while i < ls.len()
        invariant
            i <= ls@.len(),
            ls@.len() == sls.len(),
            forall|j: int| 0 <= j < ls@.len() ==> #[trigger] ls@[j]@ == sls[j],
            pair_texts(r@) == spec_devices(sls.take(i as int)),
        decreases ls.len() - i,
    {
        proof {
            assert(sls.take(i + 1).drop_last() == sls.take(i as int));
            assert(sls.take(i + 1).last() == ls@[i as int]@);
        }
        match device_line(&ls[i]) {
            Some(d) => {
                let ghost before = r@;
                r.push(d);
                assert(pair_texts(r@) =~= pair_texts(before).push((d.0@, d.1@)));
            },
            None => {},
        }
        i += 1;
    }
    assert(sls.take(sls.len() as int) == sls);
    r
}

pub open spec fn is_paren(c: char) -> bool {
    c == '(' || c == ')'
}

/// The second piece of `s` split at parentheses, if there is one.
pub open spec fn second_piece(s: Seq<char>) -> Option<Seq<char>> {
    if exists|p: int| 0 <= p < s.len() && is_paren(s[p]) && forall|j: int| 0 <= j < p ==> !is_paren(s[j]) {
        let p = choose|p: int|
            0 <= p < s.len() && is_paren(s[p]) && forall|j: int| 0 <= j < p ==> !is_paren(s[j]);
        let rest = s.skip(p + 1);
        if exists|q: int|
            0 <= q < rest.len() && is_paren(rest[q]) && forall|j: int| 0 <= j < q ==> !is_paren(rest[j]) {
            let q = choose|q: int|
                0 <= q < rest.len() && is_paren(rest[q]) && forall|j: int|
                    0 <= j < q ==> !is_paren(rest[j]);
            Some(rest.take(q))
        } else {
            Some(rest)
        }
    } else {
        None
    }
}

/// The value of a decimal that fits a `u8`.
pub open spec fn u8_text(s: Seq<char>) -> Option<nat> {
    match unsigned_text(s) {
        Some(v) => if v <= 255 {
            Some(v)
        } else {
            None
        },
        None => None,
    }
}

fn parse_u8(s: &Vec<char>) -> (r: Option<u8>)
    ensures
        match r {
            Some(v) => u8_text(s@) == Some(v as nat),
            None => u8_text(s@) is None,
        },
{
    let start: usize = if s.len() > 0 && s[0] == '+' {
        1
    } else {
        0
    };
    let m = parse_digits(s, start, s.len(), 255);
    assert(s@.subrange(1, s@.len() as int) == s@.drop_first());
    assert(s@.subrange(0, s@.len() as int) == s@);
    match m {
        Some(v) => Some(v as u8),
        None => None,
    }
}

/// A device's battery level from `bluetoothctl info`: the number in
/// parentheses of its `Battery Percentage:` line, or else its first word.
pub open spec fn spec_battery(text: Seq<char>) -> Option<nat> {
    match spec_property(spec_strip_ansi(text), "Battery Percentage:"@) {
        None => None,
        Some(value) => match second_piece(value) {
            Some(piece) => u8_text(piece),
            None => if words(value).len() > 0 {
                u8_text(words(value)[0])
            } else {
                None
            },
        },
    }
}

fn first_paren(s: &Vec<char>, from: usize) -> (r: Option<usize>)
    requires
        from <= s.len(),
    ensures
        match r {
            Some(p) => from <= p < s.len() && is_paren(s@[p as int]) && forall|j: int|
                from <= j < p ==> !is_paren(s@[j]),
            None => forall|j: int| from <= j < s.len() ==> !is_paren(s@[j]),
        },
{
    let mut i = from;
    while i < s.len()
        invariant
            from <= i <= s.len(),
            forall|j: int| from <= j < i ==> !is_paren(s@[j]),
        decreases s.len() - i,
    {
        if s[i] == '(' || s[i] == ')' {
            return Some(i);
        }
        i += 1;
    }
    None
}

fn second_piece_of(s: &Vec<char>) -> (r: Option<Vec<char>>)
    ensures
        match r {
            Some(p) => second_piece(s@) == Some(p@),
            None => second_piece(s@) is None,
        },
{
    let p = match first_paren(s, 0) {
        Some(p) => p,
        None => {
            assert(!exists|p: int|
                0 <= p < s@.len() && is_paren(s@[p]) && forall|j: int|
                    0 <= j < p ==> !is_paren(s@[j]));
            return None;
        },
    };
    let ghost sp = p as int;
    assert forall|p2: int|
        0 <= p2 < s@.len() && is_paren(s@[p2]) && (forall|j: int| 0 <= j < p2 ==> !is_paren(s@[j]))
        implies p2 == sp by {
        if p2 < sp {
        } else if p2 > sp {
            assert(!is_paren(s@[sp]));
        }
    }
    let rest = slice_of(s, p + 1, s.len());
    assert(s@.subrange(p + 1, s@.len() as int) == s@.skip(p + 1));
    match first_paren(&rest, 0) {
        Some(q) => {
            let ghost sq = q as int;
            assert forall|q2: int|
                0 <= q2 < rest@.len() && is_paren(rest@[q2]) && (forall|j: int|
                    0 <= j < q2 ==> !is_paren(rest@[j])) implies q2 == sq by {
                if q2 < sq {
                } else if q2 > sq {
                    assert(!is_paren(rest@[sq]));
                }
            }
            let piece = slice_of(&rest, 0, q);
            assert(rest@.subrange(0, q as int) == rest@.take(q as int));
            Some(piece)
        },
        None => {
            assert(!exists|q: int|
                0 <= q < rest@.len() && is_paren(rest@[q]) && forall|j: int|
                    0 <= j < q ==> !is_paren(rest@[j]));
            Some(rest)
        },
    }
}

pub fn parse_battery(text: &str) -> (r: Option<u8>)
    ensures
        match r {
            Some(v) => spec_battery(text@) == Some(v as nat),
            None => spec_battery(text@) is None,
        },
{
    let t = strip_ansi(text);
    let value = match property(t.as_str(), "Battery Percentage:") {
        Some(v) => chars_of(v.as_str()),
        None => return None,
    };
    match second_piece_of(&value) {
        Some(piece) => parse_u8(&piece),
        None => {
            let ws = words_of(&value);
            if ws.len() > 0 {
                parse_u8(&ws[0])
            } else {
                None
            }
        },
    }
}

/// A connected device, with the battery level its `bluetoothctl info`
/// output gives, when there is one.
pub fn device(alias: String, info: Option<&str>) -> (r: Device)
    ensures
        r.alias == alias,
        match info {
            Some(t) => match spec_battery(t@) {
                Some(v) => r.battery == Some(v as u8),
                None => r.battery is None,
            },
            None => r.battery is None,
        },
{
    let battery = match info {
        Some(t) => parse_battery(t),
        None => None,
    };
    Device { alias, battery }
}

/// The module's state: no controller when `bluetoothctl show` failed or
/// named none, disabled when it is off, and else the connected devices.
pub fn state(show: Option<&str>, devices: Vec<Device>) -> (r: State)
    ensures
        match show {
            None => r is NoController,
            Some(t) => match spec_controller(t@) {
                None => r is NoController,
                Some((powered, activity)) => if !powered {
                    r is Disabled
                } else if devices@.len() == 0 {
                    r == State::Ready(activity)
                } else {
                    r == State::Connected(devices, activity)
                },
            },
        },
{
    let text = match show {
        Some(t) => t,
        None => return State::NoController,
    };
    match parse_controller(text) {
        None => State::NoController,
        Some((powered, activity)) => if !powered {
            State::Disabled
        } else if devices.len() == 0 {
            State::Ready(activity)
        } else {
            State::Connected(devices, activity)
        },
    }
}

/// A device as the tooltip lists it: its alias, and its battery level.
pub open spec fn device_text(d: Device) -> Seq<char> {
    match d.battery {
        Some(b) => d.alias@ + "  "@ + decimal(b as nat) + "%"@,
        None => d.alias@,
    }
}

/// The lines of `ds`, joined by line breaks.
pub open spec fn device_lines(ds: Seq<Device>) -> Seq<char>
    decreases ds.len(),
{
    if ds.len() == 0 {
        seq![]
    } else if ds.len() == 1 {
        device_text(ds[0])
    } else {
        device_lines(ds.drop_last()) + "\n"@ + device_text(ds.last())
    }
}

pub open spec fn activity_class(a: Activity) -> Seq<char> {
    match a {
        Activity::Idle => ""@,
        Activity::Discoverable => "discoverable"@,
        Activity::Discovering => "discovering"@,
    }
}

impl State {
    /// Whether the controller is powered; none without a controller.
    pub fn powered(&self) -> (r: Option<bool>)
        ensures
            r == match self {
                State::NoController => None,
                State::Disabled => Some(false),
                _ => Some(true),
            },
    {
        match self {
            State::NoController => None,
            State::Disabled => Some(false),
            State::Ready(_) => Some(true),
            State::Connected(..) => Some(true),
        }
    }

    pub fn icon(&self) -> (r: &'static str)
        ensures
            r@ == match self {
                State::NoController => ""@,
                State::Disabled => "\u{f00b2}"@,
                State::Ready(_) => "\u{f00af}"@,
                State::Connected(..) => "\u{f00b1}"@,
            },
    {
        match self {
            State::NoController => "",
            State::Disabled => "\u{f00b2}",
            State::Ready(_) => "\u{f00af}",
            State::Connected(..) => "\u{f00b1}",
        }
    }

    pub fn class(&self) -> (r: &'static str)
        ensures
            r@ == match self {
                State::NoController => ""@,
                State::Disabled => "disabled"@,
                State::Ready(a) => activity_class(*a),
                State::Connected(_, a) => activity_class(*a),
            },
    {
        let activity = match self {
            State::NoController => return "",
            State::Disabled => return "disabled",
            State::Ready(a) => *a,
            State::Connected(_, a) => *a,
        };
        match activity {
            Activity::Idle => "",
            Activity::Discoverable => "discoverable",
            Activity::Discovering => "discovering",
        }
    }

    pub fn tooltip(&self) -> (r: String)
        ensures
            r@ == match self {
                State::NoController => ""@,
                State::Disabled => "Bluetooth disabled"@,
                State::Ready(_) => "No devices connected"@,
                State::Connected(ds, _) => "Connected\n"@ + device_lines(ds@),
            },
    {
        proof {
            reveal_strlit("");
        }
        match self {
            State::NoController => String::new(),
            State::Disabled => String::from_str("Bluetooth disabled"),
            State::Ready(_) => String::from_str("No devices connected"),
            State::Connected(ds, _) => {
                let mut r = String::from_str("Connected\n");
                let ghost start = r@;
                let mut i: usize = 0;
                while i < ds.len()
                    invariant
                        i <= ds@.len(),
                        r@ == start + device_lines(ds@.take(i as int)),
                    decreases ds.len() - i,
                {
                    proof {
                        assert(ds@.take(i + 1).drop_last() == ds@.take(i as int));
                        assert(ds@.take(i + 1).last() == ds@[i as int]);
                        if i == 0 {
                            assert(ds@.take(1)[0] == ds@[0]);
                        }
                    }
                    if i > 0 {
                        push_str(&mut r, "\n");
                    }
                    let d = &ds[i];
                    push_str(&mut r, d.alias.as_str());
                    match d.battery {
                        Some(b) => {
                            push_str(&mut r, "  ");
                            push_decimal(&mut r, b as u128);
                            push_str(&mut r, "%");
                        },
                        None => {},
                    }
                    i += 1;
                }
                assert(ds@.take(ds@.len() as int) == ds@);
                r
            },
        }
    }
}

/// The command a right click runs: it turns a powered controller off and an
/// unpowered one on; without a controller it runs nothing.
pub fn power_toggle_command(powered: Option<bool>) -> (r: Option<&'static str>)
    ensures
        powered == Some(true) ==> (r matches Some(c) && c@ == "bluetoothctl power off"@),
        powered == Some(false) ==> (r matches Some(c) && c@ == "bluetoothctl power on"@),
        powered is None ==> r is None,
{
    match powered {
        Some(true) => Some("bluetoothctl power off"),
        Some(false) => Some("bluetoothctl power on"),
        None => None,
    }
}

} // verus!
