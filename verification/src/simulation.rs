//! Synthetic traffic generation for demo and testing: a set of simulated
//! ports with distinct traffic shapes, driven by an explicitly owned
//! generator state so runs are isolated from one another.
//!
//! Utilization is expressed in per-mille (0 to 1000) and time in
//! milliseconds; randomness comes from the `rand` crate through a trusted
//! specification.

use crate::types::AdapterInfo;
use crate::types::PortCounters;
use crate::types::PortInfo;
use crate::types::PortState;
use vstd::prelude::*;

verus! {

/// Relies on rand::random: a sampled value of the standard distribution;
/// nothing is promised of the result.
pub assume_specification<T>[ rand::random::<T> ]() -> (r: T)
    where
        rand::distr::StandardUniform: rand::distr::Distribution<T>,
;

/// Traffic pattern shapes available to the simulation.
#[derive(Clone, Copy, PartialEq, Eq, Structural, Debug)]
pub enum TrafficPattern {
    /// MPI collective operations: periodic bursts with gaps.
    Burst,
    /// Steady RDMA transfers: consistent high throughput.
    Steady,
    /// Periodic workload: a wave with a ten-second period.
    Wave,
    /// Interactive or idle: low baseline with occasional spikes.
    Interactive,
    /// Network congestion: high utilization with periodic drops.
    Congestion,
}

impl TrafficPattern {
    /// Every available pattern, for cycling.
    pub fn all() -> (r: Vec<TrafficPattern>)
        ensures
            r@.len() == 5,
            r@[0] == TrafficPattern::Burst,
            r@[1] == TrafficPattern::Steady,
            r@[2] == TrafficPattern::Wave,
            r@[3] == TrafficPattern::Interactive,
            r@[4] == TrafficPattern::Congestion,
    {
        let r = vec![
            TrafficPattern::Burst,
            TrafficPattern::Steady,
            TrafficPattern::Wave,
            TrafficPattern::Interactive,
            TrafficPattern::Congestion,
        ];
        r
    }

    pub open spec fn spec_name(&self) -> Seq<char> {
        match self {
            TrafficPattern::Burst => "MPI Collective"@,
            TrafficPattern::Steady => "RDMA Stream"@,
            TrafficPattern::Wave => "Periodic Load"@,
            TrafficPattern::Interactive => "Interactive"@,
            TrafficPattern::Congestion => "Congested"@,
        }
    }

    /// Human-readable name for the pattern.
    pub fn name(self) -> (r: &'static str)
        ensures
            r@ == self.spec_name(),
    {
        match self {
            TrafficPattern::Burst => "MPI Collective",
            TrafficPattern::Steady => "RDMA Stream",
            TrafficPattern::Wave => "Periodic Load",
            TrafficPattern::Interactive => "Interactive",
            TrafficPattern::Congestion => "Congested",
        }
    }
}

/// A wave table: the sine of `2 * pi * phase / 20`, scaled by 1000, for
/// phases 0 to 19.
pub open spec fn spec_wave_step(phase: u64) -> int {
    if phase == 0 {
        0
    } else if phase == 1 {
        309
    } else if phase == 2 {
        588
    } else if phase == 3 {
        809
    } else if phase == 4 {
        951
    } else if phase == 5 {
        1000
    } else if phase == 6 {
        951
    } else if phase == 7 {
        809
    } else if phase == 8 {
        588
    } else if phase == 9 {
        309
    } else if phase == 10 {
        0
    } else if phase == 11 {
        -309
    } else if phase == 12 {
        -588
    } else if phase == 13 {
        -809
    } else if phase == 14 {
        -951
    } else if phase == 15 {
        -1000
    } else if phase == 16 {
        -951
    } else if phase == 17 {
        -809
    } else if phase == 18 {
        -588
    } else {
        -309
    }
}

fn wave_step(phase: u64) -> (r: i64)
    requires
        phase < 20,
    ensures
        r as int == spec_wave_step(phase),
{
    if phase == 0 {
        0
    } else if phase == 1 {
        309
    } else if phase == 2 {
        588
    } else if phase == 3 {
        809
    } else if phase == 4 {
        951
    } else if phase == 5 {
        1000
    } else if phase == 6 {
        951
    } else if phase == 7 {
        809
    } else if phase == 8 {
        588
    } else if phase == 9 {
        309
    } else if phase == 10 {
        0
    } else if phase == 11 {
        -309
    } else if phase == 12 {
        -588
    } else if phase == 13 {
        -809
    } else if phase == 14 {
        -951
    } else if phase == 15 {
        -1000
    } else if phase == 16 {
        -951
    } else if phase == 17 {
        -809
    } else if phase == 18 {
        -588
    } else {
        -309
    }
}

/// Random noise in 0 to 999 per-mille.
fn random_noise() -> (r: u64)
    ensures
        r < 1000,
{
    let v: u64 = rand::random::<u64>();
    v % 1000
}

/// Traffic multiplier for a pattern at a point in time, in per-mille of the
/// port's maximum throughput. Every outcome lies between 50 and 1000: each
/// pattern keeps a positive baseline and never exceeds full utilization.
pub fn calculate_utilization(pattern: TrafficPattern, time_ms: u64) -> (r: u64)
    ensures
        50 <= r <= 1000,
        pattern == TrafficPattern::Congestion ==> r >= 300,
{
    match pattern {
        TrafficPattern::Burst => {
            // Two-second cycle: a half-second burst near 85%, then a gap
            // near 5%.
            let cycle_pos = time_ms % 2000;
            if cycle_pos < 500 {
                850 + random_noise() / 10
            } else {
                50 + random_noise() / 10
            }
        },
        TrafficPattern::Steady => {
            // Consistent high throughput with minor variations.
            750 + random_noise() * 150 / 1000
        },
        TrafficPattern::Wave => {
            // Wave with a ten-second period around 50% utilization.
            let phase = (time_ms % 10000) / 500;
            let base: i64 = 500 + 400 * wave_step(phase) / 1000;
            let with_noise: i64 = base + (random_noise() / 10) as i64;
            if with_noise < 100 {
                100
            } else if with_noise > 1000 {
                1000
            } else {
                with_noise as u64
            }
        },
        TrafficPattern::Interactive => {
            // Low baseline with occasional spikes.
            let spike: u64 = if random_noise() > 920 {
                700
            } else {
                0
            };
            50 + random_noise() * 80 / 1000 + spike
        },
        TrafficPattern::Congestion => {
            // High utilization with periodic drops (packet loss).
            let drop: u64 = if random_noise() > 850 {
                300
            } else {
                0
            };
            let v = 900 + random_noise() / 10 - drop;
            if v < 300 {
                300
            } else {
                v
            }
        },
    }
}

/// The average packet size a pattern produces, which sets the
/// packet-to-byte ratio.
pub open spec fn spec_avg_packet_size(pattern: TrafficPattern) -> u64 {
    match pattern {
        TrafficPattern::Burst => 4096,
        TrafficPattern::Steady => 65536,
        TrafficPattern::Wave => 8192,
        TrafficPattern::Interactive => 512,
        TrafficPattern::Congestion => 32768,
    }
}

/// Average packet size for a pattern, in bytes.
pub fn avg_packet_size(pattern: TrafficPattern) -> (r: u64)
    ensures
        r == spec_avg_packet_size(pattern),
        r >= 1,
{
    match pattern {
        TrafficPattern::Burst => 4096,
        TrafficPattern::Steady => 65536,
        TrafficPattern::Wave => 8192,
        TrafficPattern::Interactive => 512,
        TrafficPattern::Congestion => 32768,
    }
}

/// Error probability for a pattern, in parts per million per tick.
fn error_probability(pattern: TrafficPattern) -> (r: u64)
    ensures
        r <= 2000,
{
    match pattern {
        TrafficPattern::Burst | TrafficPattern::Wave => 100,
        TrafficPattern::Steady => 50,
        TrafficPattern::Interactive => 200,
        TrafficPattern::Congestion => 2000,
    }
}

/// Cumulative counters for one simulated port.
pub struct PortCounterState {
    pub rx_bytes: u64,
    pub tx_bytes: u64,
    pub rx_packets: u64,
    pub tx_packets: u64,
    pub rx_errors: u64,
    pub tx_errors: u64,
    pub rx_dropped: u64,
}

impl PortCounterState {
    /// The all-zero counter state.
    pub open spec fn spec_zero() -> PortCounterState {
        PortCounterState {
            rx_bytes: 0,
            tx_bytes: 0,
            rx_packets: 0,
            tx_packets: 0,
            rx_errors: 0,
            tx_errors: 0,
            rx_dropped: 0,
        }
    }

    /// Fresh counters, all zero.
    pub fn new() -> (r: Self)
        ensures
            r == PortCounterState::spec_zero(),
    {
        PortCounterState {
            rx_bytes: 0,
            tx_bytes: 0,
            rx_packets: 0,
            tx_packets: 0,
            rx_errors: 0,
            tx_errors: 0,
            rx_dropped: 0,
        }
    }

    /// The snapshot this state currently denotes.
    fn snapshot(&self) -> (r: PortCounters)
        ensures
            r == snapshot_of(*self),
    {
        PortCounters {
            rx_bytes: self.rx_bytes,
            tx_bytes: self.tx_bytes,
            rx_packets: self.rx_packets,
            tx_packets: self.tx_packets,
            rx_errors: self.rx_errors,
            tx_errors: self.tx_errors,
            rx_dropped: self.rx_dropped,
        }
    }
}

/// The snapshot a cumulative counter state denotes: the same seven values,
/// read as one point-in-time reading.
pub open spec fn snapshot_of(s: PortCounterState) -> PortCounters {
    PortCounters {
        rx_bytes: s.rx_bytes,
        tx_bytes: s.tx_bytes,
        rx_packets: s.rx_packets,
        tx_packets: s.tx_packets,
        rx_errors: s.rx_errors,
        tx_errors: s.tx_errors,
        rx_dropped: s.rx_dropped,
    }
}

/// The counters of one state never decrease from `a` to `b`.
pub open spec fn counters_grow(a: PortCounterState, b: PortCounterState) -> bool {
    &&& a.rx_bytes <= b.rx_bytes
    &&& a.tx_bytes <= b.tx_bytes
    &&& a.rx_packets <= b.rx_packets
    &&& a.tx_packets <= b.tx_packets
    &&& a.rx_errors <= b.rx_errors
    &&& a.tx_errors <= b.tx_errors
    &&& a.rx_dropped <= b.rx_dropped
}

fn add_sat(a: u64, b: u64) -> (r: u64)
    ensures
        a <= r,
        r as int == crate::history::add_saturating(a as int, b as int),
{
    if a <= u64::MAX - b {
        a + b
    } else {
        u64::MAX
    }
}

/// Advance one simulated port by one tick: accumulate the traffic of the
/// interval into its cumulative counters (saturating, so counters are
/// monotone) and return the new snapshot.
fn generate_counters(
    state: &mut PortCounterState,
    pattern: TrafficPattern,
    max_throughput: u64,
    rx_tx_permille: u64,
    time_ms: u64,
) -> (r: PortCounters)
    requires
        max_throughput >= 1000000,
        300 <= rx_tx_permille <= 700,
    ensures
        counters_grow(*old(state), *final(state)),
        final(state).rx_bytes >= 1,
        r == snapshot_of(*final(state)),
    {
    let utilization = calculate_utilization(pattern, time_ms);
    proof {
        assert((max_throughput as int) * (utilization as int) <= (u64::MAX as int) * 1000)
            by (nonlinear_arith)
            requires
                utilization <= 1000,
                0 <= max_throughput <= u64::MAX as int,
        ;
    }
    // Bytes transferred in one 250 ms tick.
    let total_wide: u128 = (max_throughput as u128) * (utilization as u128) / 4000;
    let total_bytes: u64 = if total_wide > u64::MAX as u128 {
        u64::MAX
    } else {
        total_wide as u64
    };
    proof {
        assert((max_throughput as int) * 50 / 4000 >= 12) by (nonlinear_arith)
            requires
                max_throughput >= 1000000,
        ;
        assert((max_throughput as int) * (utilization as int) >= (max_throughput as int) * 50)
            by (nonlinear_arith)
            requires
                utilization >= 50,
                max_throughput >= 0,
        ;
        assert((max_throughput as int) * (utilization as int) / 4000 >= (max_throughput as int)
            * 50 / 4000) by (nonlinear_arith)
            requires
                (max_throughput as int) * (utilization as int) >= (max_throughput as int) * 50,
        ;
    }
    proof {
        assert((total_bytes as int) * (rx_tx_permille as int) <= (u64::MAX as int) * 1000)
            by (nonlinear_arith)
            requires
                rx_tx_permille <= 1000,
                0 <= total_bytes <= u64::MAX as int,
        ;
    }
    let rx_wide: u128 = (total_bytes as u128) * (rx_tx_permille as u128) / 1000;
    proof {
        assert((total_bytes as int) * (rx_tx_permille as int) / 1000 <= total_bytes as int
            && (total_bytes as int) * (rx_tx_permille as int) / 1000 >= (total_bytes as int) * 300
            / 1000) by (nonlinear_arith)
            requires
                300 <= rx_tx_permille <= 700,
                total_bytes >= 0,
        ;
        assert((total_bytes as int) * 300 / 1000 >= 1) by (nonlinear_arith)
            requires
                total_bytes >= 4,
        ;
    }
    let rx_bytes: u64 = rx_wide as u64;
    let tx_bytes: u64 = total_bytes - rx_bytes;
    let packet_size = avg_packet_size(pattern);
    let rx_packets = rx_bytes / packet_size;
    let tx_packets = tx_bytes / packet_size;
    let error_prob = error_probability(pattern);
    let rx_errors: u64 = if rand::random::<u64>() % 1000000 < error_prob {
        rand::random::<u64>() % 3
    } else {
        0
    };
    let tx_errors: u64 = if rand::random::<u64>() % 1000000 < error_prob {
        rand::random::<u64>() % 2
    } else {
        0
    };
    let rx_dropped: u64 = if pattern == TrafficPattern::Congestion && rand::random::<u64>() % 100
        == 0 {
        rand::random::<u64>() % 5
    } else {
        0
    };
    state.rx_bytes = add_sat(state.rx_bytes, if rx_bytes >= 1 {
        rx_bytes
    } else {
        1
    });
    state.tx_bytes = add_sat(state.tx_bytes, tx_bytes);
    state.rx_packets = add_sat(state.rx_packets, rx_packets);
    state.tx_packets = add_sat(state.tx_packets, tx_packets);
    state.rx_errors = add_sat(state.rx_errors, rx_errors);
    state.tx_errors = add_sat(state.tx_errors, tx_errors);
    state.rx_dropped = add_sat(state.rx_dropped, rx_dropped);
    state.snapshot()
}

/// Owned state of the whole simulation: a tick counter and cumulative
/// counters for each of the six simulated ports.
pub struct SimState {
    pub call_count: u64,
    pub port0: PortCounterState,
    pub port1: PortCounterState,
    pub port2: PortCounterState,
    pub port3: PortCounterState,
    pub port4: PortCounterState,
    pub port5: PortCounterState,
}

impl SimState {
    /// A fresh simulation: no ticks seen, all counters zero.
    pub fn new() -> (r: Self)
        ensures
            r.call_count == 0,
            r.port0 == PortCounterState::spec_zero(),
            r.port1 == PortCounterState::spec_zero(),
            r.port2 == PortCounterState::spec_zero(),
            r.port3 == PortCounterState::spec_zero(),
            r.port4 == PortCounterState::spec_zero(),
            r.port5 == PortCounterState::spec_zero(),
    {
        SimState {
            call_count: 0,
            port0: PortCounterState::new(),
            port1: PortCounterState::new(),
            port2: PortCounterState::new(),
            port3: PortCounterState::new(),
            port4: PortCounterState::new(),
            port5: PortCounterState::new(),
        }
    }

    /// Advance the simulated clock by one tick of 250 ms and return the
    /// current simulated time in milliseconds.
    fn tick(&mut self) -> (t: u64)
        ensures
            t as int == if old(self).call_count <= u64::MAX as int / 250 {
                old(self).call_count * 250
            } else {
                u64::MAX as int
            },
            final(self).call_count == if old(self).call_count < u64::MAX {
                old(self).call_count + 1
            } else {
                u64::MAX as int
            },
            final(self).port0 == old(self).port0,
            final(self).port1 == old(self).port1,
            final(self).port2 == old(self).port2,
            final(self).port3 == old(self).port3,
            final(self).port4 == old(self).port4,
            final(self).port5 == old(self).port5,
    {
        let t: u64 = if self.call_count <= u64::MAX / 250 {
            self.call_count * 250
        } else {
            u64::MAX
        };
        if self.call_count < u64::MAX {
            self.call_count = self.call_count + 1;
        }
        t
    }
}

/// Generate one poll of fake adapters with distinct traffic shapes. The
/// result always holds the same four adapters in name order; the one down
/// port reports all-zero counters, and every active port's cumulative
/// counters grow monotonically with the owned simulation state.
pub fn generate_fake_adapters(state: &mut SimState) -> (r: Vec<AdapterInfo>)
    ensures
        r@.len() == 4,
        r@[0].name@ == "mlx5_0"@,
        r@[1].name@ == "mlx5_1"@,
        r@[2].name@ == "mlx5_2"@,
        r@[3].name@ == "mlx5_bond0"@,
        r@[0].ports@.len() == 2,
        r@[1].ports@.len() == 1,
        r@[2].ports@.len() == 1,
        r@[3].ports@.len() == 2,
        r@[0].ports@[0].port_number == 1 && r@[0].ports@[1].port_number == 2,
        r@[1].ports@[0].port_number == 1,
        r@[2].ports@[0].port_number == 1,
        r@[3].ports@[0].port_number == 1 && r@[3].ports@[1].port_number == 2,
        r@[0].ports@[1].state == PortState::Down,
        r@[0].ports@[1].counters == PortCounters::spec_zero(),
        r@[0].ports@[0].state == PortState::Active && r@[0].ports@[0].counters.rx_bytes >= 1,
        r@[1].ports@[0].state == PortState::Active && r@[1].ports@[0].counters.rx_bytes >= 1,
        r@[2].ports@[0].state == PortState::Active && r@[2].ports@[0].counters.rx_bytes >= 1,
        r@[3].ports@[0].state == PortState::Active && r@[3].ports@[0].counters.rx_bytes >= 1,
        r@[3].ports@[1].state == PortState::Active && r@[3].ports@[1].counters.rx_bytes >= 1,
        // Each active port reports exactly the snapshot of its advanced
        // cumulative state, so successive polls are monotone; the down
        // port's state is untouched.
        r@[0].ports@[0].counters == snapshot_of(final(state).port0),
        r@[1].ports@[0].counters == snapshot_of(final(state).port2),
        r@[2].ports@[0].counters == snapshot_of(final(state).port3),
        r@[3].ports@[0].counters == snapshot_of(final(state).port4),
        r@[3].ports@[1].counters == snapshot_of(final(state).port5),
        final(state).port1 == old(state).port1,
        final(state).call_count == if old(state).call_count < u64::MAX {
            old(state).call_count + 1
        } else {
            u64::MAX as int
        },
        counters_grow(old(state).port0, final(state).port0),
        counters_grow(old(state).port2, final(state).port2),
        counters_grow(old(state).port3, final(state).port3),
        counters_grow(old(state).port4, final(state).port4),
        counters_grow(old(state).port5, final(state).port5),
        // The fixed link-rate strings of the simulated ports.
        r@[0].ports@[0].rate@ == "100 Gb/sec (4X EDR)"@,
        r@[0].ports@[1].rate@ == "100 Gb/sec (4X EDR)"@,
        r@[1].ports@[0].rate@ == "200 Gb/sec (4X HDR)"@,
        r@[2].ports@[0].rate@ == "400 Gb/sec (4X NDR)"@,
        r@[3].ports@[0].rate@ == "200 Gb/sec (Bonded)"@,
        r@[3].ports@[1].rate@ == "200 Gb/sec (Bonded)"@,
{
    let time_ms = state.tick();
    let c0 = generate_counters(&mut state.port0, TrafficPattern::Burst, 12500000000, 550, time_ms);
    let c2 = generate_counters(&mut state.port2, TrafficPattern::Steady, 25000000000, 480, time_ms);
    let c3 = generate_counters(&mut state.port3, TrafficPattern::Wave, 50000000000, 520, time_ms);
    let c4 = generate_counters(
        &mut state.port4,
        TrafficPattern::Interactive,
        25000000000,
        700,
        time_ms,
    );
    let c5 = generate_counters(
        &mut state.port5,
        TrafficPattern::Congestion,
        25000000000,
        300,
        time_ms,
    );
    let r = vec![
        AdapterInfo {
            name: "mlx5_0".to_owned(),
            ports: vec![
                PortInfo {
                    port_number: 1,
                    state: PortState::Active,
                    rate: "100 Gb/sec (4X EDR)".to_owned(),
                    counters: c0,
                },
                PortInfo {
                    port_number: 2,
                    state: PortState::Down,
                    rate: "100 Gb/sec (4X EDR)".to_owned(),
                    counters: PortCounters::default(),
                },
            ],
        },
        AdapterInfo {
            name: "mlx5_1".to_owned(),
            ports: vec![
                PortInfo {
                    port_number: 1,
                    state: PortState::Active,
                    rate: "200 Gb/sec (4X HDR)".to_owned(),
                    counters: c2,
                },
            ],
        },
        AdapterInfo {
            name: "mlx5_2".to_owned(),
            ports: vec![
                PortInfo {
                    port_number: 1,
                    state: PortState::Active,
                    rate: "400 Gb/sec (4X NDR)".to_owned(),
                    counters: c3,
                },
            ],
        },
        AdapterInfo {
            name: "mlx5_bond0".to_owned(),
            ports: vec![
                PortInfo {
                    port_number: 1,
                    state: PortState::Active,
                    rate: "200 Gb/sec (Bonded)".to_owned(),
                    counters: c4,
                },
                PortInfo {
                    port_number: 2,
                    state: PortState::Active,
                    rate: "200 Gb/sec (Bonded)".to_owned(),
                    counters: c5,
                },
            ],
        },
    ];
    r
}

} // verus!
