//! A small fake counter source: two adapters whose counters drift upward by
//! random increments, driven by an explicitly owned state so runs are
//! reproducible in isolation.

use crate::types::AdapterInfo;
use crate::types::PortCounters;
use crate::types::PortInfo;
use crate::types::PortState;
use vstd::prelude::*;

verus! {

/// Owned base counters for the two simulated active ports.
pub struct FakeState {
    pub port0: crate::simulation::PortCounterState,
    pub port1: crate::simulation::PortCounterState,
}

/// The base counters the first fake port starts from.
pub open spec fn spec_base_port0() -> crate::simulation::PortCounterState {
    crate::simulation::PortCounterState {
        rx_bytes: 1234567890,
        tx_bytes: 987654321,
        rx_packets: 1000000,
        tx_packets: 950000,
        rx_errors: 12,
        tx_errors: 5,
        rx_dropped: 0,
    }
}

/// The base counters the second fake port starts from.
pub open spec fn spec_base_port1() -> crate::simulation::PortCounterState {
    crate::simulation::PortCounterState {
        rx_bytes: 5555555555,
        tx_bytes: 4444444444,
        rx_packets: 2500000,
        tx_packets: 2400000,
        rx_errors: 8,
        tx_errors: 3,
        rx_dropped: 1,
    }
}

impl FakeState {
    /// Starting bases: nonzero counters so the fake ports look lived-in.
    pub fn new() -> (r: Self)
        ensures
            r.port0 == spec_base_port0(),
            r.port1 == spec_base_port1(),
    {
        FakeState {
            port0: crate::simulation::PortCounterState {
                rx_bytes: 1234567890,
                tx_bytes: 987654321,
                rx_packets: 1000000,
                tx_packets: 950000,
                rx_errors: 12,
                tx_errors: 5,
                rx_dropped: 0,
            },
            port1: crate::simulation::PortCounterState {
                rx_bytes: 5555555555,
                tx_bytes: 4444444444,
                rx_packets: 2500000,
                tx_packets: 2400000,
                rx_errors: 8,
                tx_errors: 3,
                rx_dropped: 1,
            },
        }
    }
}

fn bump(base: &mut u64, limit: u64) -> (r: u64)
    requires
        limit >= 1,
    ensures
        *old(base) <= *final(base),
        r == *old(base),
{
    let r: u64 = *base;
    let inc: u64 = rand::random::<u64>() % limit;
    *base = if r <= u64::MAX - inc {
        r + inc
    } else {
        u64::MAX
    };
    r
}

fn chance(percent: u64) -> (r: u64)
    ensures
        r <= 1,
{
    if rand::random::<u64>() % 100 < percent {
        1
    } else {
        0
    }
}

fn bump_by(base: &mut u64, inc: u64) -> (r: u64)
    ensures
        *old(base) <= *final(base),
        r == *old(base),
{
    let r: u64 = *base;
    *base = if r <= u64::MAX - inc {
        r + inc
    } else {
        u64::MAX
    };
    r
}

/// Generate one poll of fake adapters: two adapters, three ports, one of
/// them down with all-zero counters. Counters drift upward by random
/// increments; the owned state is monotone from call to call.
pub fn generate_fake_adapters(state: &mut FakeState) -> (r: Vec<AdapterInfo>)
    ensures
        crate::simulation::counters_grow(old(state).port0, final(state).port0),
        crate::simulation::counters_grow(old(state).port1, final(state).port1),
        r@.len() == 2,
        r@[0].name@ == "mlx5_0"@,
        r@[1].name@ == "mlx5_1"@,
        r@[0].ports@.len() == 2,
        r@[1].ports@.len() == 1,
        r@[0].ports@[0].port_number == 1 && r@[0].ports@[0].state == PortState::Active,
        r@[0].ports@[1].port_number == 2 && r@[0].ports@[1].state == PortState::Down,
        r@[0].ports@[1].counters == PortCounters::spec_zero(),
        r@[1].ports@[0].port_number == 1 && r@[1].ports@[0].state == PortState::Active,
        // Each active port reports exactly the snapshot of the state as it
        // was before this call's increments, so successive polls are
        // monotone.
        r@[0].ports@[0].counters == crate::simulation::snapshot_of(old(state).port0),
        r@[1].ports@[0].counters == crate::simulation::snapshot_of(old(state).port1),
        // The fixed link-rate strings of the fake ports.
        r@[0].ports@[0].rate@ == "100 Gb/sec (4X EDR)"@,
        r@[0].ports@[1].rate@ == "100 Gb/sec (4X EDR)"@,
        r@[1].ports@[0].rate@ == "200 Gb/sec (4X HDR)"@,
{
    let c0 = PortCounters {
        rx_bytes: bump(&mut state.port0.rx_bytes, 100000),
        tx_bytes: bump(&mut state.port0.tx_bytes, 80000),
        rx_packets: bump(&mut state.port0.rx_packets, 1000),
        tx_packets: bump(&mut state.port0.tx_packets, 900),
        rx_errors: bump_by(&mut state.port0.rx_errors, chance(5)),
        tx_errors: bump_by(&mut state.port0.tx_errors, chance(3)),
        rx_dropped: state.port0.rx_dropped,
    };
    let c1 = PortCounters {
        rx_bytes: bump(&mut state.port1.rx_bytes, 150000),
        tx_bytes: bump(&mut state.port1.tx_bytes, 120000),
        rx_packets: bump(&mut state.port1.rx_packets, 1500),
        tx_packets: bump(&mut state.port1.tx_packets, 1400),
        rx_errors: bump_by(&mut state.port1.rx_errors, chance(4)),
        tx_errors: bump_by(&mut state.port1.tx_errors, chance(2)),
        rx_dropped: bump_by(&mut state.port1.rx_dropped, chance(1)),
    };
    let r = vec![
        AdapterInfo {
            name: "mlx5_0".to_owned(),
            ports: vec![
                PortInfo {
                    port_number: 1,
                    state: PortState::Active,
                    rate: "100 Gb/sec (4X EDR)".to_owned(),
                    counters: c0,
                },
                PortInfo {
                    port_number: 2,
                    state: PortState::Down,
                    rate: "100 Gb/sec (4X EDR)".to_owned(),
                    counters: PortCounters::default(),
                },
            ],
        },
        AdapterInfo {
            name: "mlx5_1".to_owned(),
            ports: vec![
                PortInfo {
                    port_number: 1,
                    state: PortState::Active,
                    rate: "200 Gb/sec (4X HDR)".to_owned(),
                    counters: c1,
                },
            ],
        },
    ];
    r
}

} // verus!
