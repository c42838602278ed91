//! The network state the bar shows: connection, signal, band and traffic.
use vstd::prelude::*;

use crate::text::{push_str, str_eq};

verus! {

broadcast use vstd::string::group_string_axioms;

#[verifier::external_type_specification]
#[verifier::external_body]
pub struct ExInstant(std::time::Instant);

/// The current instant (`Instant::now`); depends on the clock.
#[verifier::external_body]
fn now() -> std::time::Instant {
    std::time::Instant::now()
}

/// The nanoseconds elapsed since `at` (`Instant::elapsed`); depends on the clock.
#[verifier::external_body]
fn elapsed_nanos(at: &std::time::Instant) -> u128 {
    at.elapsed().as_nanos()
}

/// Byte counters of an interface, read at some instant.
pub struct TrafficSample {
    pub interface: String,
    pub received: u64,
    pub sent: u64,
    pub at: std::time::Instant,
}

impl TrafficSample {
    pub fn new(interface: String, received: u64, sent: u64) -> (r: Self)
        ensures
            r.interface == interface,
            r.received == received,
            r.sent == sent,
    {
        TrafficSample { interface, received, sent, at: now() }
    }
}

pub enum State {
    Disconnected,
    Wifi {
        interface: String,
        network: String,
        mode: String,
        frequency: u32,
        signal: u8,
        address: String,
        received: u64,
        sent: u64,
    },
    Ethernet { interface: String, address: String, received: u64, sent: u64 },
}

pub open spec fn spec_wifi_icon(signal: u8) -> Seq<char> {
    if signal <= 20 {
        "\u{f092f}"@
    } else if signal <= 40 {
        "\u{f091f}"@
    } else if signal <= 60 {
        "\u{f0922}"@
    } else if signal <= 80 {
        "\u{f0925}"@
    } else {
        "\u{f0928}"@
    }
}

/// The Wi-Fi icon for a signal strength in percent, in steps of twenty.
pub fn wifi_icon(signal: u8) -> (r: &'static str)
    ensures
        r@ == spec_wifi_icon(signal),
{
    if signal <= 20 {
        "\u{f092f}"
    } else if signal <= 40 {
        "\u{f091f}"
    } else if signal <= 60 {
        "\u{f0922}"
    } else if signal <= 80 {
        "\u{f0925}"
    } else {
        "\u{f0928}"
    }
}

pub open spec fn spec_wifi_band(frequency: u32) -> Seq<char> {
    if frequency <= 3000 {
        "2.4G"@
    } else if frequency <= 5924 {
        "5G"@
    } else {
        "6G"@
    }
}

/// The band a frequency in MHz belongs to.
pub fn wifi_band(frequency: u32) -> (r: &'static str)
    ensures
        r@ == spec_wifi_band(frequency),
{
    if frequency <= 3000 {
        "2.4G"
    } else if frequency <= 5924 {
        "5G"
    } else {
        "6G"
    }
}

pub open spec fn spec_wifi_generation(mode: Seq<char>) -> Seq<char> {
    if mode == "802.11be"@ {
        "Wi-Fi 7"@
    } else if mode == "802.11ax"@ {
        "Wi-Fi 6"@
    } else if mode == "802.11ac"@ {
        "Wi-Fi 5"@
    } else if mode == "802.11n"@ {
        "Wi-Fi 4"@
    } else {
        mode
    }
}

/// Each 802.11 mode names its Wi-Fi generation: 802.11be is Wi-Fi 7,
/// 802.11ax Wi-Fi 6, 802.11ac Wi-Fi 5 and 802.11n Wi-Fi 4; every other mode
/// is shown by its own name.
pub proof fn law_wifi_modes_name_their_generation(mode: Seq<char>)
    ensures
        spec_wifi_generation("802.11be"@) == "Wi-Fi 7"@,
        spec_wifi_generation("802.11ax"@) == "Wi-Fi 6"@,
        spec_wifi_generation("802.11ac"@) == "Wi-Fi 5"@,
        spec_wifi_generation("802.11n"@) == "Wi-Fi 4"@,
        mode != "802.11be"@ && mode != "802.11ax"@ && mode != "802.11ac"@ && mode != "802.11n"@
            ==> spec_wifi_generation(mode) == mode,
{
    reveal_strlit("802.11be");
    reveal_strlit("802.11ax");
    reveal_strlit("802.11ac");
    reveal_strlit("802.11n");
    assert("802.11ax"@[6] != "802.11be"@[6]);
    assert("802.11ac"@[7] != "802.11be"@[7]);
    assert("802.11ac"@[7] != "802.11ax"@[7]);
    assert("802.11n"@.len() != "802.11be"@.len());
    assert("802.11n"@.len() != "802.11ax"@.len());
    assert("802.11n"@.len() != "802.11ac"@.len());
}

/// The marketing name of an 802.11 mode; other modes keep their own name.
pub fn wifi_generation(mode: &str) -> (r: String)
    ensures
        r@ == spec_wifi_generation(mode@),
{
    if str_eq(mode, "802.11be") {
        String::from_str("Wi-Fi 7")
    } else if str_eq(mode, "802.11ax") {
        String::from_str("Wi-Fi 6")
    } else if str_eq(mode, "802.11ac") {
        String::from_str("Wi-Fi 5")
    } else if str_eq(mode, "802.11n") {
        String::from_str("Wi-Fi 4")
    } else {
        String::from_str(mode)
    }
}

// ---------------------------------------------------------------------------
// Traffic
// ---------------------------------------------------------------------------
pub open spec fn saturating_sub(a: u64, b: u64) -> nat {
    if a >= b {
        (a - b) as nat
    } else {
        0
    }
}

pub open spec fn traffic_unknown() -> Seq<char> {
    "\u{f0d7}  \u{2014}  \u{f0d8}  \u{2014}"@
}

/// Text that may end in a traffic line whose rates are still to be written.
#[derive(Debug, PartialEq, Eq)]
pub enum TrafficText {
    /// The finished text.
    Done(String),
    /// `prefix`, then the traffic line for `received` and `sent` bytes over
    /// `nanos` nanoseconds.
    Rates { prefix: String, received: u64, sent: u64, nanos: u128 },
}

/// `r` is `prefix` followed by the traffic line of counters `received` and
/// `sent` against `previous`: the bytes since that sample when it is of the
/// same interface (over a time the clock gives), placeholders otherwise.
pub open spec fn traffic_after(
    r: TrafficText,
    prefix: Seq<char>,
    interface: Seq<char>,
    received: u64,
    sent: u64,
    previous: Option<TrafficSample>,
) -> bool {
    match previous {
        Some(p) => if p.interface@ == interface {
            match r {
                TrafficText::Rates { prefix: q, received: rr, sent: ss, .. } => q@ == prefix && rr
                    == saturating_sub(received, p.received) && ss == saturating_sub(sent, p.sent),
                TrafficText::Done(_) => false,
            }
        } else {
            r matches TrafficText::Done(t) && t@ == prefix + traffic_unknown()
        },
        None => r matches TrafficText::Done(t) && t@ == prefix + traffic_unknown(),
    }
}

fn traffic_after_prefix(
    prefix: String,
    interface: &str,
    received: u64,
    sent: u64,
    previous: Option<&TrafficSample>,
) -> (r: TrafficText)
    ensures
        traffic_after(
            r,
            prefix@,
            interface@,
            received,
            sent,
            match previous {
                Some(p) => Some(*p),
                None => None,
            },
        ),
{
    match previous {
        Some(p) => if str_eq(p.interface.as_str(), interface) {
            let received = if received >= p.received {
                received - p.received
            } else {
                0
            };
            let sent = if sent >= p.sent {
                sent - p.sent
            } else {
                0
            };
            let nanos = elapsed_nanos(&p.at);
            TrafficText::Rates { prefix, received, sent, nanos }
        } else {
            let mut r = prefix;
            push_str(&mut r, "\u{f0d7}  \u{2014}  \u{f0d8}  \u{2014}");
            TrafficText::Done(r)
        },
        None => {
            let mut r = prefix;
            push_str(&mut r, "\u{f0d7}  \u{2014}  \u{f0d8}  \u{2014}");
            TrafficText::Done(r)
        },
    }
}

/// The traffic line: the bytes since the previous sample of the same
/// interface, or placeholders when there is no such sample.
pub fn traffic(interface: &str, received: u64, sent: u64, previous: Option<&TrafficSample>) -> (r:
    TrafficText)
    ensures
        traffic_after(
            r,
            Seq::empty(),
            interface@,
            received,
            sent,
            match previous {
                Some(p) => Some(*p),
                None => None,
            },
        ),
{
    traffic_after_prefix(String::new(), interface, received, sent, previous)
}

impl State {
    pub fn class(&self) -> (r: &'static str)
        ensures
            r@ == if self is Disconnected {
                "disconnected"@
            } else {
                ""@
            },
    {
        match self {
            State::Disconnected => "disconnected",
            _ => "",
        }
    }

    pub fn icon(&self) -> (r: &'static str)
        ensures
            r@ == match self {
                State::Disconnected => "\u{f0c9b}"@,
                State::Ethernet { .. } => "\u{f0200}"@,
                State::Wifi { signal, .. } => spec_wifi_icon(*signal),
            },
    {
        match self {
            State::Disconnected => "\u{f0c9b}",
            State::Ethernet { .. } => "\u{f0200}",
            State::Wifi { signal, .. } => wifi_icon(*signal),
        }
    }

    /// The tooltip: network, generation and band for Wi-Fi, the interface for
    /// Ethernet, then the address and the traffic line.
    pub fn tooltip(&self, previous: Option<&TrafficSample>) -> (r: TrafficText)
        ensures
            match self {
                State::Disconnected => r matches TrafficText::Done(t) && t@ == "Disconnected"@,
                State::Wifi { network, mode, frequency, address, interface, received, sent, .. } =>
                traffic_after(
                    r,
                    network@ + " \u{b7} "@ + spec_wifi_generation(mode@) + " \u{b7} "@
                        + spec_wifi_band(*frequency) + "\n\u{f0a60}  "@ + address@ + "\n"@,
                    interface@,
                    *received,
                    *sent,
                    match previous {
                        Some(p) => Some(*p),
                        None => None,
                    },
                ),
                State::Ethernet { interface, address, received, sent } => traffic_after(
                    r,
                    "Ethernet \u{b7} "@ + interface@ + "\n\u{f0a60}  "@ + address@ + "\n"@,
                    interface@,
                    *received,
                    *sent,
                    match previous {
                        Some(p) => Some(*p),
                        None => None,
                    },
                ),
            },
    {
        match self {
            State::Disconnected => TrafficText::Done(String::from_str("Disconnected")),
            State::Wifi { interface, network, mode, frequency, address, received, sent, .. } => {
                let mut r = network.clone();
                push_str(&mut r, " \u{b7} ");
                let generation = wifi_generation(mode.as_str());
                push_str(&mut r, generation.as_str());
                push_str(&mut r, " \u{b7} ");
                push_str(&mut r, wifi_band(*frequency));
                push_str(&mut r, "\n\u{f0a60}  ");
                push_str(&mut r, address.as_str());
                push_str(&mut r, "\n");
                traffic_after_prefix(r, interface.as_str(), *received, *sent, previous)
            },
            State::Ethernet { interface, address, received, sent } => {
                let mut r = String::from_str("Ethernet \u{b7} ");
                push_str(&mut r, interface.as_str());
                push_str(&mut r, "\n\u{f0a60}  ");
                push_str(&mut r, address.as_str());
                push_str(&mut r, "\n");
                traffic_after_prefix(r, interface.as_str(), *received, *sent, previous)
            },
        }
    }

    /// The counters to compare the next reading against.
    pub fn traffic_sample(&self) -> (r: Option<TrafficSample>)
        ensures
            match self {
                State::Disconnected => r is None,
                State::Wifi { interface, received, sent, .. } => r matches Some(t) && t.interface
                    == interface && t.received == received && t.sent == sent,
                State::Ethernet { interface, received, sent, .. } => r matches Some(t)
                    && t.interface == interface && t.received == received && t.sent == sent,
            },
    {
        match self {
            State::Wifi { interface, received, sent, .. } => Some(
                TrafficSample::new(interface.clone(), *received, *sent),
            ),
            State::Ethernet { interface, received, sent, .. } => Some(
                TrafficSample::new(interface.clone(), *received, *sent),
            ),
            State::Disconnected => None,
        }
    }
}

} // verus!
