//! Core data model: port identity, link state, raw counters and derived
//! rates.

use crate::text;
use vstd::prelude::*;

verus! {

/// Link state of one adapter port: a closed set of variants with an
/// explicit, never-failing fallback to `Unknown` when parsing.
#[derive(Clone, Copy, PartialEq, Eq, Structural, Debug)]
pub enum PortState {
    Active,
    Down,
    Unknown,
}

impl Default for PortState {
    fn default() -> (r: Self)
        ensures
            r == PortState::Unknown,
    {
        PortState::Unknown
    }
}

/// What parsing a state word yields: the exact words `ACTIVE` and `DOWN`
/// (after trimming) map to their states, everything else to `Unknown`.
pub open spec fn spec_parse_state(s: Seq<char>) -> PortState {
    if text::spec_trim(s) == "ACTIVE"@ {
        PortState::Active
    } else if text::spec_trim(s) == "DOWN"@ {
        PortState::Down
    } else {
        PortState::Unknown
    }
}

/// The state named by a raw state line. Lines of the form `4: ACTIVE` carry
/// the word after the first colon; lines without a colon are the word
/// itself.
pub open spec fn spec_parse_state_line(s: Seq<char>) -> PortState {
    if exists|i: int| 0 <= i < s.len() && s[i] == ':' {
        let i = choose|i: int|
            0 <= i < s.len() && s[i] == ':' && (forall|j: int| 0 <= j < i ==> s[j] != ':');
        spec_parse_state(s.skip(i + 1))
    } else {
        spec_parse_state(s)
    }
}

impl PortState {
    /// The canonical display word for this state.
    pub fn as_str(&self) -> (r: &'static str)
        ensures
            r@ == self.spec_str(),
    {
        proof {
            reveal_strlit("ACTIVE");
            reveal_strlit("DOWN");
            reveal_strlit("UNKNOWN");
        }
        match self {
            PortState::Active => "ACTIVE",
            PortState::Down => "DOWN",
            PortState::Unknown => "UNKNOWN",
        }
    }

    pub open spec fn spec_str(&self) -> Seq<char> {
        match self {
            PortState::Active => "ACTIVE"@,
            PortState::Down => "DOWN"@,
            PortState::Unknown => "UNKNOWN"@,
        }
    }

    /// Parse a state word, trimming surrounding whitespace; anything that is
    /// not exactly `ACTIVE` or `DOWN` becomes `Unknown`.
    pub fn parse(s: &str) -> (r: PortState)
        ensures
            r == spec_parse_state(s@),
    {
        let t = text::trim(s);
        if text::str_eq(t, "ACTIVE") {
            PortState::Active
        } else if text::str_eq(t, "DOWN") {
            PortState::Down
        } else {
            PortState::Unknown
        }
    }

    /// Parse a raw state line such as `4: ACTIVE` or `ACTIVE`: the word
    /// after the first colon, if there is one, names the state.
    pub fn parse_line(s: &str) -> (r: PortState)
        ensures
            r == spec_parse_state_line(s@),
    {
        match text::find_char(s, ':') {
            Some(i) => {
                let len = s.unicode_len();
                let rest = s.substring_char(i + 1, len);
                proof {
                    assert(0 <= i < s@.len() && s@[i as int] == ':' && (forall|j: int|
                        0 <= j < i ==> s@[j] != ':'));
                    let w = choose|k: int|
                        0 <= k < s@.len() && s@[k] == ':' && (forall|j: int|
                            0 <= j < k ==> s@[j] != ':');
                    assert(w == i);
                    assert(rest@ =~= s@.skip(i + 1));
                }
                PortState::parse(rest)
            },
            None => PortState::parse(s),
        }
    }
}

/// One point-in-time reading of the raw cumulative counters of a port.
/// Every field counts monotonically upward on the device; a decrease between
/// two snapshots signals a reset or wraparound.
#[derive(Clone, Copy, PartialEq, Eq, Structural, Debug)]
pub struct PortCounters {
    pub rx_bytes: u64,
    pub tx_bytes: u64,
    pub rx_packets: u64,
    pub tx_packets: u64,
    pub rx_errors: u64,
    pub tx_errors: u64,
    pub rx_dropped: u64,
}

impl Default for PortCounters {
    fn default() -> (r: Self)
        ensures
            r == PortCounters::spec_zero(),
    {
        PortCounters {
            rx_bytes: 0,
            tx_bytes: 0,
            rx_packets: 0,
            tx_packets: 0,
            rx_errors: 0,
            tx_errors: 0,
            rx_dropped: 0,
        }
    }
}

impl PortCounters {
    /// The all-zero reading.
    pub open spec fn spec_zero() -> PortCounters {
        PortCounters {
            rx_bytes: 0,
            tx_bytes: 0,
            rx_packets: 0,
            tx_packets: 0,
            rx_errors: 0,
            tx_errors: 0,
            rx_dropped: 0,
        }
    }
}

/// Description of one port of an adapter, as one poll observed it.
#[derive(Clone, Debug)]
pub struct PortInfo {
    pub port_number: u16,
    pub state: PortState,
    pub rate: String,
    pub counters: PortCounters,
}

/// One adapter and the ports observed under it.
#[derive(Clone, Debug)]
pub struct AdapterInfo {
    pub name: String,
    pub ports: Vec<PortInfo>,
}

} // verus!
