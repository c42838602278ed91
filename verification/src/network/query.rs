//! Reading what iwd and iproute2 print.
use vstd::prelude::*;

use super::state::State;
use crate::output::{property, spec_property, spec_strip_ansi, strip_ansi};
use crate::text::{
    chars_eq, chars_of, i32_text, lines, lines_of, parse_i32, parse_u32, push_char, push_decimal,
    push_str, string_of, u32_text, words, words_of,
};

verus! {

broadcast use vstd::string::group_string_axioms;

/// The signal quality iwd's average RSSI stands for: twice the dBm above
/// -100, bounded to 0..=100.
pub open spec fn spec_rssi_to_percent(rssi: int) -> int {
    let v = 2 * (rssi + 100);
    if v < 0 {
        0
    } else if v > 100 {
        100
    } else {
        v
    }
}

pub fn rssi_to_percent(rssi: i32) -> (percent: u8)
    ensures
        percent as int == spec_rssi_to_percent(rssi as int),
{
    let v: i64 = 2 * (rssi as i64 + 100);
    if v < 0 {
        0
    } else if v > 100 {
        100
    } else {
        v as u8
    }
}

/// The stations iwd lists as connected: lines whose second column reads
/// `connected`, by their first column.
pub open spec fn connected_stations(ls: Seq<Seq<char>>) -> Seq<Seq<char>>
    decreases ls.len(),
{
    if ls.len() == 0 {
        seq![]
    } else {
        let rest = connected_stations(ls.drop_last());
        let columns = words(ls.last());
        if columns.len() >= 2 && columns[1] == "connected"@ {
            rest.push(columns[0])
        } else {
            rest
        }
    }
}

pub fn parse_iwctl_stations(text: &str) -> (r: Vec<String>)
    ensures
        r@.len() == connected_stations(lines(spec_strip_ansi(text@))).len(),
        forall|i: int|
            0 <= i < r@.len() ==> (#[trigger] r@[i])@ == connected_stations(
                lines(spec_strip_ansi(text@)),
            )[i],
{
    let clean = strip_ansi(text);
    let chars = chars_of(clean.as_str());
    let ls = lines_of(&chars);
    let ghost spec_ls = lines(chars@);
    let connected = chars_of("connected");
    let mut r: Vec<String> = Vec::new();
    let mut k: usize = 0;
    while k < ls.len()
        invariant
            ls@.len() == spec_ls.len(),
            forall|i: int| 0 <= i < ls@.len() ==> #[trigger] ls@[i]@ == spec_ls[i],
            connected@ == "connected"@,
            k <= ls.len(),
            r@.len() == connected_stations(spec_ls.take(k as int)).len(),
            forall|i: int|
                0 <= i < r@.len() ==> (#[trigger] r@[i])@ == connected_stations(
                    spec_ls.take(k as int),
                )[i],
        decreases ls.len() - k,
    {
        let columns = words_of(&ls[k]);
        assert(spec_ls.take(k + 1).drop_last() == spec_ls.take(k as int));
        assert(spec_ls.take(k + 1).last() == spec_ls[k as int]);
        if columns.len() >= 2 && chars_eq(&columns[1], &connected) {
            r.push(string_of(&columns[0]));
        }
        k += 1;
    }
    assert(spec_ls.take(ls@.len() as int) == spec_ls);
    r
}

/// What iwd says of the station it is connected through.
pub struct WifiStation {
    pub network: String,
    pub mode: String,
    pub frequency: u32,
    pub signal: u8,
}

/// The first word of a property's value read as an `i32`.
pub open spec fn first_word_i32(value: Seq<char>) -> Option<int> {
    if words(value).len() > 0 {
        i32_text(words(value)[0])
    } else {
        None
    }
}

/// The station `text` describes, when it names the network, the average
/// RSSI, the frequency and the receive mode.
pub open spec fn spec_wifi_station(text: Seq<char>) -> Option<(Seq<char>, Seq<char>, int, int)> {
    let t = spec_strip_ansi(text);
    match (
        spec_property(t, "Connected network"@),
        spec_property(t, "AverageRSSI"@),
        spec_property(t, "Frequency"@),
        spec_property(t, "RxMode"@),
    ) {
        (Some(network), Some(rssi), Some(frequency), Some(mode)) => match (
            first_word_i32(rssi),
            u32_text(frequency),
        ) {
            (Some(r), Some(f)) => Some((network, mode, f as int, spec_rssi_to_percent(r))),
            _ => None,
        },
        _ => None,
    }
}

pub fn parse_wifi_station(text: &str) -> (r: Option<WifiStation>)
    ensures
        match r {
            Some(s) => spec_wifi_station(text@) == Some(
                (s.network@, s.mode@, s.frequency as int, s.signal as int),
            ),
            None => spec_wifi_station(text@) is None,
        },
{
    let clean = strip_ansi(text);
    let network = property(clean.as_str(), "Connected network");
    let rssi_text = property(clean.as_str(), "AverageRSSI");
    let network = match network {
        Some(n) => n,
        None => return None,
    };
    let rssi_text = match rssi_text {
        Some(v) => v,
        None => return None,
    };
    let rssi_words = words_of(&chars_of(rssi_text.as_str()));
    if rssi_words.len() == 0 {
        return None;
    }
    let rssi = match parse_i32(&rssi_words[0]) {
        Some(v) => v,
        None => return None,
    };
    let frequency = match property(clean.as_str(), "Frequency") {
        Some(f) => match parse_u32(&chars_of(f.as_str())) {
            Some(v) => v,
            None => return None,
        },
        None => return None,
    };
    let mode = match property(clean.as_str(), "RxMode") {
        Some(m) => m,
        None => return None,
    };
    Some(WifiStation { network, mode, frequency, signal: rssi_to_percent(rssi) })
}

/// An address `ip` lists for an interface.
pub struct AddressInfo {
    pub family: String,
    pub local: String,
    pub prefixlen: u8,
    pub scope: String,
}

pub open spec fn global_ipv4(a: AddressInfo) -> bool {
    a.family@ == "inet"@ && a.scope@ == "global"@
}

/// The interface's first global IPv4 address, written `address/prefix`.
pub fn select_address(addresses: &Vec<AddressInfo>) -> (r: Option<String>)
    ensures
        match r {
            Some(s) => exists|k: int|
                0 <= k < addresses@.len() && global_ipv4(#[trigger] addresses@[k]) && (forall|j: int|
                    0 <= j < k ==> !global_ipv4(#[trigger] addresses@[j])) && s@ == addresses@[k].local@
                    + seq!['/'] + crate::text::decimal(addresses@[k].prefixlen as nat),
            None => forall|j: int| 0 <= j < addresses@.len() ==> !global_ipv4(#[trigger] addresses@[j]),
        },
{
    let mut k: usize = 0;
    while k < addresses.len()
        invariant
            k <= addresses.len(),
            forall|j: int| 0 <= j < k ==> !global_ipv4(#[trigger] addresses@[j]),
        decreases addresses.len() - k,
    {
        let a = &addresses[k];
        if crate::text::str_eq(a.family.as_str(), "inet") && crate::text::str_eq(a.scope.as_str(), "global") {
            let mut s = a.local.clone();
            push_char(&mut s, '/');
            push_decimal(&mut s, a.prefixlen as u128);
            assert(global_ipv4(addresses@[k as int]));
            return Some(s);
        }
        k += 1;
    }
    None
}

/// Whether `interface` is among the stations `iwctl station list` shows as
/// connected.
pub fn lists_station(stations: &Vec<String>, interface: &str) -> (r: bool)
    ensures
        r == exists|i: int| 0 <= i < stations@.len() && (#[trigger] stations@[i])@ == interface@,
{
    let mut i: usize = 0;
    while i < stations.len()
        invariant
            i <= stations.len(),
            forall|j: int| 0 <= j < i ==> (#[trigger] stations@[j])@ != interface@,
        decreases stations.len() - i,
    {
        if crate::text::str_eq(stations[i].as_str(), interface) {
            return true;
        }
        i += 1;
    }
    false
}

/// The address the bar shows: the interface's global IPv4 address, else the
/// default route's source address, else nothing.
pub open spec fn shown_address(address: Option<String>, route_address: Option<String>) -> Seq<
    char,
> {
    match address {
        Some(a) => a@,
        None => match route_address {
            Some(a) => a@,
            None => Seq::empty(),
        },
    }
}

/// The connection the bar shows, from what `ip` and `iwctl` report: the
/// default route's device and source address, the device's byte counters,
/// its global address, and its station when iwd lists it as connected.
/// Without a default route or counters the bar is disconnected; with a
/// station it is on Wi-Fi, else on Ethernet.
pub fn connection_state(
    route: Option<(String, Option<String>)>,
    counters: Option<(u64, u64)>,
    address: Option<String>,
    station: Option<WifiStation>,
) -> (r: State)
    ensures
        match (route, counters) {
            (Some((device, route_address)), Some((received, sent))) => match station {
                Some(st) => r matches State::Wifi {
                    interface,
                    network,
                    mode,
                    frequency,
                    signal,
                    address: shown,
                    received: rx,
                    sent: tx,
                } && interface == device && network == st.network && mode == st.mode
                    && frequency == st.frequency && signal == st.signal && shown@ == shown_address(
                    address,
                    route_address,
                ) && rx == received && tx == sent,
                None => r matches State::Ethernet {
                    interface,
                    address: shown,
                    received: rx,
                    sent: tx,
                } && interface == device && shown@ == shown_address(address, route_address) && rx
                    == received && tx == sent,
            },
            _ => r is Disconnected,
        },
{
    let (device, route_address) = match route {
        Some(route) => route,
        None => return State::Disconnected,
    };
    let (received, sent) = match counters {
        Some(counters) => counters,
        None => return State::Disconnected,
    };
    let shown = match address {
        Some(a) => a,
        None => match route_address {
            Some(a) => a,
            None => String::new(),
        },
    };
    match station {
        Some(st) => State::Wifi {
            interface: device,
            network: st.network,
            mode: st.mode,
            frequency: st.frequency,
            signal: st.signal,
            address: shown,
            received,
            sent,
        },
        None => State::Ethernet { interface: device, address: shown, received, sent },
    }
}

} // verus!
