//! The rate engine: turns successive per-entity counter snapshots plus a
//! caller-supplied clock into per-second rates and bounded history.
//!
//! All rates are integers (units per second, rounded down) and timestamps
//! are integer milliseconds. The engine handles counter regression (clamped
//! to a zero delta per field), zero elapsed time (an all-zero sample instead
//! of a division), warm-up (the first snapshot of an entity emits nothing)
//! and entity churn (anything absent from a poll is evicted).

use crate::history::HistoryCollector;
use crate::history::PortHistory;
use crate::portmap::PortMap;
use crate::portmap::key_set;
use crate::types::AdapterInfo;
use crate::types::PortCounters;
use vstd::prelude::*;

verus! {

/// Fallback elapsed interval for the very first update call, in
/// milliseconds.
pub const DEFAULT_ELAPSED_MS: u64 = 1000;

/// Derived per-second rates for one entity over one polling interval.
#[derive(Clone, Copy, PartialEq, Eq, Structural, Debug)]
pub struct PortMetrics {
    pub rx_bytes_per_sec: u64,
    pub tx_bytes_per_sec: u64,
    pub rx_packets_per_sec: u64,
    pub tx_packets_per_sec: u64,
    pub error_rate: u64,
}

impl Default for PortMetrics {
    fn default() -> (r: Self)
        ensures
            r == PortMetrics::spec_zero(),
    {
        PortMetrics {
            rx_bytes_per_sec: 0,
            tx_bytes_per_sec: 0,
            rx_packets_per_sec: 0,
            tx_packets_per_sec: 0,
            error_rate: 0,
        }
    }
}

impl PortMetrics {
    /// The all-zero sample.
    pub open spec fn spec_zero() -> PortMetrics {
        PortMetrics {
            rx_bytes_per_sec: 0,
            tx_bytes_per_sec: 0,
            rx_packets_per_sec: 0,
            tx_packets_per_sec: 0,
            error_rate: 0,
        }
    }
}

/// Saturating counter delta: a decreasing counter (reset or wraparound)
/// clamps to zero for that field only.
pub open spec fn spec_delta(cur: u64, prev: u64) -> int {
    if cur >= prev {
        cur - prev
    } else {
        0
    }
}

/// A per-second rate from a delta over `elapsed_ms` milliseconds, rounded
/// down and saturating at the integer limit.
pub open spec fn spec_rate(delta: int, elapsed_ms: int) -> int
    recommends
        elapsed_ms >= 1,
{
    let r = delta * 1000 / elapsed_ms;
    if r <= u64::MAX {
        r
    } else {
        u64::MAX as int
    }
}

/// The rate sample derived from two snapshots of one entity. Zero elapsed
/// time yields the all-zero sample; otherwise each field is its saturating
/// delta divided by the elapsed seconds, and the error rate sums the
/// receive and transmit error deltas.
pub open spec fn spec_rates(prev: PortCounters, cur: PortCounters, elapsed_ms: int) -> PortMetrics {
    if elapsed_ms == 0 {
        PortMetrics::spec_zero()
    } else {
        PortMetrics {
            rx_bytes_per_sec: spec_rate(spec_delta(cur.rx_bytes, prev.rx_bytes), elapsed_ms) as u64,
            tx_bytes_per_sec: spec_rate(spec_delta(cur.tx_bytes, prev.tx_bytes), elapsed_ms) as u64,
            rx_packets_per_sec: spec_rate(
                spec_delta(cur.rx_packets, prev.rx_packets),
                elapsed_ms,
            ) as u64,
            tx_packets_per_sec: spec_rate(
                spec_delta(cur.tx_packets, prev.tx_packets),
                elapsed_ms,
            ) as u64,
            error_rate: spec_rate(
                spec_delta(cur.rx_errors, prev.rx_errors) + spec_delta(
                    cur.tx_errors,
                    prev.tx_errors,
                ),
                elapsed_ms,
            ) as u64,
        }
    }
}

fn rate_from_delta(delta: u128, elapsed_ms: u64) -> (r: u64)
    requires
        elapsed_ms >= 1,
        delta <= 2 * (u64::MAX as u128),
    ensures
        r as int == spec_rate(delta as int, elapsed_ms as int),
{
    let wide: u128 = delta * 1000;
    let q: u128 = wide / (elapsed_ms as u128);
    if q > u64::MAX as u128 {
        u64::MAX
    } else {
        q as u64
    }
}

fn delta_of(cur: u64, prev: u64) -> (r: u64)
    ensures
        r as int == spec_delta(cur, prev),
{
    if cur >= prev {
        cur - prev
    } else {
        0
    }
}

/// Compute the rate sample between two snapshots of one entity.
fn calculate_rates(prev: &PortCounters, current: &PortCounters, elapsed_ms: u64) -> (r: PortMetrics)
    ensures
        r == spec_rates(*prev, *current, elapsed_ms as int),
{
    if elapsed_ms == 0 {
        return PortMetrics::default();
    }
    let rx_err = delta_of(current.rx_errors, prev.rx_errors);
    let tx_err = delta_of(current.tx_errors, prev.tx_errors);
    PortMetrics {
        rx_bytes_per_sec: rate_from_delta(
            delta_of(current.rx_bytes, prev.rx_bytes) as u128,
            elapsed_ms,
        ),
        tx_bytes_per_sec: rate_from_delta(
            delta_of(current.tx_bytes, prev.tx_bytes) as u128,
            elapsed_ms,
        ),
        rx_packets_per_sec: rate_from_delta(
            delta_of(current.rx_packets, prev.rx_packets) as u128,
            elapsed_ms,
        ),
        tx_packets_per_sec: rate_from_delta(
            delta_of(current.tx_packets, prev.tx_packets) as u128,
            elapsed_ms,
        ),
        error_rate: rate_from_delta((rx_err as u128) + (tx_err as u128), elapsed_ms),
    }
}

/// The flattened `(key, counters)` triples named by one adapter, in port
/// order.
pub open spec fn ports_of(a: AdapterInfo) -> Seq<(Seq<char>, u16, PortCounters)> {
    a.ports@.map(|i: int, p: crate::types::PortInfo| (a.name@, p.port_number, p.counters))
}

/// The flattened `(key, counters)` triples of a whole poll, adapter by
/// adapter.
pub open spec fn flat_of(adapters: Seq<AdapterInfo>) -> Seq<(Seq<char>, u16, PortCounters)>
    decreases adapters.len(),
{
    if adapters.len() == 0 {
        Seq::empty()
    } else {
        flat_of(adapters.drop_last()) + ports_of(adapters.last())
    }
}

/// Whether `flat` names the key `k`.
pub open spec fn in_keys(flat: Seq<(Seq<char>, u16, PortCounters)>, k: (Seq<char>, u16)) -> bool {
    exists|i: int| 0 <= i < flat.len() && (#[trigger] flat[i].0, flat[i].1) == k
}

/// No entity appears twice in one poll.
pub open spec fn distinct_flat(flat: Seq<(Seq<char>, u16, PortCounters)>) -> bool {
    forall|i: int, j: int|
        0 <= i < j < flat.len() ==> (#[trigger] flat[i].0, flat[i].1) != (
            #[trigger] flat[j].0,
            flat[j].1,
        )
}

/// `m0` overridden, in order, by every `(key, counters)` pair of `flat`.
pub open spec fn snap_insert(
    m0: Map<(Seq<char>, u16), PortCounters>,
    flat: Seq<(Seq<char>, u16, PortCounters)>,
) -> Map<(Seq<char>, u16), PortCounters>
    decreases flat.len(),
{
    if flat.len() == 0 {
        m0
    } else {
        snap_insert(m0, flat.drop_last()).insert(
            (flat.last().0, flat.last().1),
            flat.last().2,
        )
    }
}

/// The snapshot map of one poll: entity key to its current counters.
pub open spec fn snap_map(flat: Seq<(Seq<char>, u16, PortCounters)>) -> Map<
    (Seq<char>, u16),
    PortCounters,
> {
    snap_insert(Map::empty(), flat)
}

proof fn lemma_snap_insert_contains(
    m0: Map<(Seq<char>, u16), PortCounters>,
    flat: Seq<(Seq<char>, u16, PortCounters)>,
    k: (Seq<char>, u16),
)
    ensures
        snap_insert(m0, flat).contains_key(k) <==> (m0.contains_key(k) || in_keys(flat, k)),
        !in_keys(flat, k) && m0.contains_key(k) ==> snap_insert(m0, flat)[k] == m0[k],
    decreases flat.len(),
{
    if flat.len() > 0 {
        lemma_snap_insert_contains(m0, flat.drop_last(), k);
        assert(forall|i: int|
            0 <= i < flat.len() - 1 ==> flat.drop_last()[i] == #[trigger] flat[i]);
        if in_keys(flat.drop_last(), k) {
            let i = choose|i: int|
                0 <= i < flat.drop_last().len() && (#[trigger] flat.drop_last()[i].0,
                flat.drop_last()[i].1) == k;
            assert((flat[i].0, flat[i].1) == k);
        }
        if (flat.last().0, flat.last().1) == k {
            assert((flat[flat.len() - 1].0, flat[flat.len() - 1].1) == k);
        }
        if !m0.contains_key(k) && !in_keys(flat, k) {
            assert(!((flat.last().0, flat.last().1) == k)) by {
                if (flat.last().0, flat.last().1) == k {
                    assert((flat[flat.len() - 1].0, flat[flat.len() - 1].1) == k);
                }
            }
        }
        if snap_insert(m0, flat).contains_key(k) && !in_keys(flat, k) {
            assert(!((flat.last().0, flat.last().1) == k)) by {
                if (flat.last().0, flat.last().1) == k {
                    assert((flat[flat.len() - 1].0, flat[flat.len() - 1].1) == k);
                }
            }
        }
    }
}

proof fn lemma_snap_insert_index(
    m0: Map<(Seq<char>, u16), PortCounters>,
    flat: Seq<(Seq<char>, u16, PortCounters)>,
    i: int,
)
    requires
        distinct_flat(flat),
        0 <= i < flat.len(),
    ensures
        snap_insert(m0, flat).contains_key((flat[i].0, flat[i].1)),
        snap_insert(m0, flat)[(flat[i].0, flat[i].1)] == flat[i].2,
    decreases flat.len(),
{
    assert(forall|a: int| 0 <= a < flat.len() - 1 ==> flat.drop_last()[a] == #[trigger] flat[a]);
    if i == flat.len() - 1 {
    } else {
        assert((flat[i].0, flat[i].1) != (flat[flat.len() - 1].0, flat[flat.len() - 1].1));
        assert(distinct_flat(flat.drop_last()));
        lemma_snap_insert_index(m0, flat.drop_last(), i);
    }
}

/// How recording one sample changes the history map at key `k`: each of the
/// entity's five channels gains the matching field of `m` (a fresh empty
/// history is created first when the key was absent).
pub open spec fn sample_recorded(
    before: Map<(Seq<char>, u16), PortHistory>,
    after: Map<(Seq<char>, u16), PortHistory>,
    k: (Seq<char>, u16),
    cap: int,
    m: PortMetrics,
) -> bool {
    crate::history::recorded_into(
        before,
        after,
        k,
        cap,
        m.rx_bytes_per_sec,
        m.tx_bytes_per_sec,
        m.rx_packets_per_sec,
        m.tx_packets_per_sec,
        m.error_rate,
    )
}

/// Mid-update state of the rate-sample table: entities of the processed
/// prefix with a cached snapshot carry their new sample; everything else is
/// as before the update.
spec fn metrics_state_ok(
    met: Map<(Seq<char>, u16), PortMetrics>,
    met0: Map<(Seq<char>, u16), PortMetrics>,
    prev0: Map<(Seq<char>, u16), PortCounters>,
    snap: Map<(Seq<char>, u16), PortCounters>,
    processed: Seq<(Seq<char>, u16, PortCounters)>,
    elapsed: int,
) -> bool {
    &&& forall|k: (Seq<char>, u16)|
        !(in_keys(processed, k) && prev0.contains_key(k)) ==> (#[trigger] met.contains_key(k)
            == met0.contains_key(k) && (met0.contains_key(k) ==> met[k] == met0[k]))
    &&& forall|k: (Seq<char>, u16)|
        in_keys(processed, k) && prev0.contains_key(k) ==> #[trigger] met.contains_key(k)
            && met[k] == spec_rates(prev0[k], snap[k], elapsed)
}

/// Mid-update state of the history table: entities of the processed prefix
/// with a cached snapshot have their sample recorded; everything else is as
/// before the update.
spec fn history_state_ok(
    hist: Map<(Seq<char>, u16), PortHistory>,
    hist0: Map<(Seq<char>, u16), PortHistory>,
    prev0: Map<(Seq<char>, u16), PortCounters>,
    snap: Map<(Seq<char>, u16), PortCounters>,
    processed: Seq<(Seq<char>, u16, PortCounters)>,
    cap: int,
    elapsed: int,
) -> bool {
    &&& forall|k: (Seq<char>, u16)|
        !(in_keys(processed, k) && prev0.contains_key(k)) ==> (#[trigger] hist.contains_key(k)
            == hist0.contains_key(k) && (hist0.contains_key(k) ==> hist[k] == hist0[k]))
    &&& forall|k: (Seq<char>, u16)|
        in_keys(processed, k) && prev0.contains_key(k) ==> sample_recorded(
            hist0,
            hist,
            k,
            cap,
            spec_rates(prev0[k], snap[k], elapsed),
        )
}

/// The engine: per-entity cached snapshots, the latest rate sample per
/// entity, the caller-supplied clock of the last update, and the bounded
/// rate history.
pub struct MetricsCollector {
    pub previous_counters: PortMap<PortCounters>,
    pub current_metrics: PortMap<PortMetrics>,
    pub last_collection: Option<u64>,
    pub history: HistoryCollector,
}

impl MetricsCollector {
    /// The cached previous snapshot per entity.
    pub open spec fn spec_prev(&self) -> Map<(Seq<char>, u16), PortCounters> {
        self.previous_counters@
    }

    /// The latest emitted rate sample per entity.
    pub open spec fn spec_metrics(&self) -> Map<(Seq<char>, u16), PortMetrics> {
        self.current_metrics@
    }

    /// The caller-supplied time of the last update, if any.
    pub open spec fn spec_last(&self) -> Option<u64> {
        self.last_collection
    }

    /// Internal well-formedness: the underlying maps are well formed, and
    /// rate samples and histories exist only for entities with a cached
    /// snapshot.
    pub open spec fn inv(&self) -> bool {
        &&& self.previous_counters.inv()
        &&& self.current_metrics.inv()
        &&& self.history.inv()
        &&& forall|k: (Seq<char>, u16)| #[trigger]
            self.current_metrics@.contains_key(k) ==> self.previous_counters@.contains_key(k)
        &&& forall|k: (Seq<char>, u16)| #[trigger]
            self.history@.contains_key(k) ==> self.previous_counters@.contains_key(k)
    }

    /// A fresh engine: no cached snapshots, no samples, no history, no
    /// clock.
    pub fn new() -> (r: Self)
        ensures
            r.inv(),
            r.spec_prev() == Map::<(Seq<char>, u16), PortCounters>::empty(),
            r.spec_metrics() == Map::<(Seq<char>, u16), PortMetrics>::empty(),
            r.spec_last() == None::<u64>,
            r.history@ == Map::<(Seq<char>, u16), PortHistory>::empty(),
            r.history.spec_capacity() == crate::history::DEFAULT_HISTORY_SIZE,
    {
        MetricsCollector {
            previous_counters: PortMap::new(),
            current_metrics: PortMap::new(),
            last_collection: None,
            history: HistoryCollector::new(),
        }
    }

    /// The elapsed interval this update will use, in milliseconds: the
    /// distance to the last update (clamped at zero if the clock ran
    /// backwards), or the configured default on the very first call.
    pub open spec fn spec_elapsed(last: Option<u64>, now: u64) -> int {
        match last {
            Some(t) => if now >= t {
                now - t
            } else {
                0
            },
            None => DEFAULT_ELAPSED_MS as int,
        }
    }

    /// Process one poll: `adapters` is the complete set of currently
    /// visible entities with their counters, `now_ms` the caller's clock.
    ///
    /// For every entity with a cached previous snapshot, a rate sample is
    /// computed and appended to its history; an entity seen for the first
    /// time only has its snapshot cached (warm-up). Afterwards every cached
    /// snapshot, sample and history whose entity is absent from this poll
    /// is evicted.
    #[verifier::rlimit(100)]
    pub fn update(&mut self, adapters: &Vec<AdapterInfo>, now_ms: u64)
        requires
            old(self).inv(),
            distinct_flat(flat_of(adapters@)),
        ensures
            final(self).inv(),
            final(self).spec_last() == Some(now_ms),
            final(self).history.spec_capacity() == old(self).history.spec_capacity(),
            final(self).spec_prev() == snap_map(flat_of(adapters@)),
            final(self).spec_metrics() == Map::<(Seq<char>, u16), PortMetrics>::new(
                |k: (Seq<char>, u16)|
                    snap_map(flat_of(adapters@)).contains_key(k) && old(
                        self,
                    ).spec_prev().contains_key(k),
                |k: (Seq<char>, u16)|
                    spec_rates(
                        old(self).spec_prev()[k],
                        snap_map(flat_of(adapters@))[k],
                        Self::spec_elapsed(old(self).spec_last(), now_ms),
                    ),
            ),
            forall|k: (Seq<char>, u16)| #[trigger]
                final(self).history@.contains_key(k) <==> (snap_map(
                    flat_of(adapters@),
                ).contains_key(k) && old(self).spec_prev().contains_key(k)),
            forall|k: (Seq<char>, u16)|
                snap_map(flat_of(adapters@)).contains_key(k) && old(
                    self,
                ).spec_prev().contains_key(k) ==> sample_recorded(
                    old(self).history@,
                    final(self).history@,
                    k,
                    old(self).history.spec_capacity(),
                    spec_rates(
                        old(self).spec_prev()[k],
                        snap_map(flat_of(adapters@))[k],
                        Self::spec_elapsed(old(self).spec_last(), now_ms),
                    ),
                ),
    {
        let elapsed: u64 = match self.last_collection {
            Some(t) => {
                if now_ms >= t {
                    now_ms - t
                } else {
                    0
                }
            },
            None => DEFAULT_ELAPSED_MS,
        };
        let flat = flatten(adapters);
        let ghost fv = flat_of(adapters@);
        proof {
            assert(flat_view(flat@) == fv);
        }
        let ghost snap = snap_map(fv);
        let ghost prev0 = self.spec_prev();
        let ghost hist0 = self.history@;
        let ghost met0 = self.spec_metrics();
        let ghost cap = self.history.spec_capacity();
        let len = flat.len();
        let mut i: usize = 0;
        while i < len
            invariant
                len == flat@.len(),
                i <= len,
                flat_view(flat@) == fv,
                distinct_flat(fv),
                self.previous_counters.inv(),
                self.current_metrics.inv(),
                self.history.inv(),
                self.history.spec_capacity() == cap,
                self.last_collection == old(self).last_collection,
                elapsed as int == Self::spec_elapsed(old(self).spec_last(), now_ms),
                prev0 == old(self).spec_prev(),
                hist0 == old(self).history@,
                met0 == old(self).spec_metrics(),
                snap == snap_map(fv),
                old(self).inv(),
                // previous snapshots: old map overridden by the processed prefix
                self.spec_prev() == snap_insert(prev0, fv.take(i as int)),
                // rate samples: emitted for processed entities with a cached
                // snapshot, untouched elsewhere
                metrics_state_ok(
                    self.spec_metrics(),
                    met0,
                    prev0,
                    snap,
                    fv.take(i as int),
                    elapsed as int,
                ),
                // history: recorded for processed entities with a cached
                // snapshot, untouched elsewhere
                history_state_ok(
                    self.history@,
                    hist0,
                    prev0,
                    snap,
                    fv.take(i as int),
                    cap,
                    elapsed as int,
                ),
            decreases len - i,
        {
            let entry = &flat[i];
            let ghost k = (entry.0@, entry.1);
            proof {
                assert(fv[i as int] == (entry.0@, entry.1, entry.2));
                assert(fv.take(i + 1).drop_last() =~= fv.take(i as int));
                assert(fv.take(i + 1).last() == fv[i as int]);
                assert(!in_keys(fv.take(i as int), k)) by {
                    if in_keys(fv.take(i as int), k) {
                        let j = choose|j: int|
                            0 <= j < fv.take(i as int).len() && (#[trigger] fv.take(
                                i as int,
                            )[j].0, fv.take(i as int)[j].1) == k;
                        assert((fv[j].0, fv[j].1) == (fv[i as int].0, fv[i as int].1));
                    }
                }
                lemma_snap_insert_contains(prev0, fv.take(i as int), k);
                lemma_snap_insert_index(Map::empty(), fv, i as int);
                assert(snap[k] == fv[i as int].2);
            }
            let maybe_prev: Option<PortCounters> = match self.previous_counters.get(
                entry.0.as_str(),
                entry.1,
            ) {
                Some(p) => Some(*p),
                None => None,
            };
            let ghost met_pre = self.spec_metrics();
            let ghost hist_pre = self.history@;
            self.previous_counters.set(entry.0.as_str(), entry.1, entry.2);
            proof {
                assert(self.spec_prev() =~= snap_insert(prev0, fv.take(i + 1)));
                assert forall|q: (Seq<char>, u16)|
                    in_keys(fv.take(i + 1), q) && q != k implies in_keys(
                    fv.take(i as int),
                    q,
                ) by {
                    let j = choose|j: int|
                        0 <= j < fv.take(i + 1).len() && (#[trigger] fv.take(i + 1)[j].0,
                        fv.take(i + 1)[j].1) == q;
                    assert(j < i as int);
                    assert((fv.take(i as int)[j].0, fv.take(i as int)[j].1) == q);
                }
                assert forall|q: (Seq<char>, u16)|
                    in_keys(fv.take(i as int), q) implies in_keys(fv.take(i + 1), q) by {
                    let j = choose|j: int|
                        0 <= j < fv.take(i as int).len() && (#[trigger] fv.take(
                            i as int,
                        )[j].0, fv.take(i as int)[j].1) == q;
                    assert((fv.take(i + 1)[j].0, fv.take(i + 1)[j].1) == q);
                }
                assert(in_keys(fv.take(i + 1), k)) by {
                    assert((fv.take(i + 1)[i as int].0, fv.take(i + 1)[i as int].1) == k);
                }
            }
            match maybe_prev {
                Some(prev) => {
                    proof {
                        assert(prev0.contains_key(k) && prev == prev0[k]);
                    }
                    let m = calculate_rates(&prev, &entry.2, elapsed);
                    proof {
                        assert(m == spec_rates(prev0[k], snap[k], elapsed as int));
                    }
                    self.history.record(
                        entry.0.as_str(),
                        entry.1,
                        m.rx_bytes_per_sec,
                        m.tx_bytes_per_sec,
                        m.rx_packets_per_sec,
                        m.tx_packets_per_sec,
                        m.error_rate,
                    );
                    self.current_metrics.set(entry.0.as_str(), entry.1, m);
                    proof {
                        assert forall|q: (Seq<char>, u16)|
                            !(in_keys(fv.take(i + 1), q) && prev0.contains_key(q)) implies (
                            #[trigger] self.spec_metrics().contains_key(q) == met0.contains_key(q)
                                && (met0.contains_key(q) ==> self.spec_metrics()[q]
                                == met0[q])) by {
                            assert(q != k);
                            assert(!(in_keys(fv.take(i as int), q) && prev0.contains_key(q)));
                            assert(met_pre.contains_key(q) == met0.contains_key(q));
                            assert(met0.contains_key(q) ==> met_pre[q] == met0[q]);
                            assert(self.spec_metrics().contains_key(q) == met_pre.contains_key(
                                q,
                            ));
                            assert(met_pre.contains_key(q) ==> self.spec_metrics()[q]
                                == met_pre[q]);
                        }
                        assert forall|q: (Seq<char>, u16)|
                            in_keys(fv.take(i + 1), q) && prev0.contains_key(q)
                            implies #[trigger] self.spec_metrics().contains_key(q)
                            && self.spec_metrics()[q] == spec_rates(
                            prev0[q],
                            snap[q],
                            elapsed as int,
                        ) by {
                            if q != k {
                                assert(in_keys(fv.take(i as int), q));
                                assert(met_pre.contains_key(q) && met_pre[q] == spec_rates(
                                    prev0[q],
                                    snap[q],
                                    elapsed as int,
                                ));
                            }
                        }
                        assert forall|q: (Seq<char>, u16)|
                            !(in_keys(fv.take(i + 1), q) && prev0.contains_key(q)) implies (
                            #[trigger] self.history@.contains_key(q) == hist0.contains_key(q) && (
                            hist0.contains_key(q) ==> self.history@[q] == hist0[q])) by {
                            assert(q != k);
                            assert(!(in_keys(fv.take(i as int), q) && prev0.contains_key(q)));
                            assert(hist_pre.contains_key(q) == hist0.contains_key(q));
                            assert(self.history@.contains_key(q) == hist_pre.contains_key(q));
                            assert(hist_pre.contains_key(q) ==> self.history@[q] == hist_pre[q]);
                        }
                        assert forall|q: (Seq<char>, u16)|
                            in_keys(fv.take(i + 1), q) && prev0.contains_key(q)
                            implies sample_recorded(
                            hist0,
                            #[trigger] self.history@,
                            q,
                            cap,
                            spec_rates(prev0[q], snap[q], elapsed as int),
                        ) by {
                            if q == k {
                                assert(!(in_keys(fv.take(i as int), k) && prev0.contains_key(k)));
                                assert(hist_pre.contains_key(k) == hist0.contains_key(k));
                                assert(hist0.contains_key(k) ==> hist_pre[k] == hist0[k]);
                            } else {
                                assert(in_keys(fv.take(i as int), q));
                                assert(sample_recorded(
                                    hist0,
                                    hist_pre,
                                    q,
                                    cap,
                                    spec_rates(prev0[q], snap[q], elapsed as int),
                                ));
                                assert(self.history@.contains_key(q) == hist_pre.contains_key(q));
                                assert(hist_pre.contains_key(q) ==> self.history@[q]
                                    == hist_pre[q]);
                            }
                        }
                    }
                },
                None => {
                    proof {
                        assert(!prev0.contains_key(k));
                        assert forall|q: (Seq<char>, u16)|
                            !(in_keys(fv.take(i + 1), q) && prev0.contains_key(q)) implies (
                            #[trigger] self.spec_metrics().contains_key(q) == met0.contains_key(q)
                                && (met0.contains_key(q) ==> self.spec_metrics()[q]
                                == met0[q])) by {
                            assert(!(in_keys(fv.take(i as int), q) && prev0.contains_key(q)));
                            assert(met_pre.contains_key(q) == met0.contains_key(q));
                            assert(met0.contains_key(q) ==> met_pre[q] == met0[q]);
                        }
                        assert forall|q: (Seq<char>, u16)|
                            in_keys(fv.take(i + 1), q) && prev0.contains_key(q)
                            implies #[trigger] self.spec_metrics().contains_key(q)
                            && self.spec_metrics()[q] == spec_rates(
                            prev0[q],
                            snap[q],
                            elapsed as int,
                        ) by {
                            assert(q != k);
                            assert(in_keys(fv.take(i as int), q));
                            assert(met_pre.contains_key(q) && met_pre[q] == spec_rates(
                                prev0[q],
                                snap[q],
                                elapsed as int,
                            ));
                        }
                        assert forall|q: (Seq<char>, u16)|
                            !(in_keys(fv.take(i + 1), q) && prev0.contains_key(q)) implies (
                            #[trigger] self.history@.contains_key(q) == hist0.contains_key(q) && (
                            hist0.contains_key(q) ==> self.history@[q] == hist0[q])) by {
                            assert(!(in_keys(fv.take(i as int), q) && prev0.contains_key(q)));
                            assert(hist_pre.contains_key(q) == hist0.contains_key(q));
                            assert(hist0.contains_key(q) ==> hist_pre[q] == hist0[q]);
                        }
                        assert forall|q: (Seq<char>, u16)|
                            in_keys(fv.take(i + 1), q) && prev0.contains_key(q)
                            implies sample_recorded(
                            hist0,
                            #[trigger] self.history@,
                            q,
                            cap,
                            spec_rates(prev0[q], snap[q], elapsed as int),
                        ) by {
                            assert(q != k);
                            assert(in_keys(fv.take(i as int), q));
                            assert(sample_recorded(
                                hist0,
                                hist_pre,
                                q,
                                cap,
                                spec_rates(prev0[q], snap[q], elapsed as int),
                            ));
                        }
                    }
                },
            }
            proof {
                assert(metrics_state_ok(
                    self.spec_metrics(),
                    met0,
                    prev0,
                    snap,
                    fv.take(i + 1),
                    elapsed as int,
                ));
                assert(history_state_ok(
                    self.history@,
                    hist0,
                    prev0,
                    snap,
                    fv.take(i + 1),
                    cap,
                    elapsed as int,
                ));
            }
            i = i + 1;
        }
        proof {
            assert(fv.take(len as int) =~= fv);
        }
        let ghost prev1 = self.spec_prev();
        let ghost met1 = self.spec_metrics();
        let ghost hist1 = self.history@;
        let active = keys_of(&flat);
        proof {
            assert forall|k: (Seq<char>, u16)| #[trigger]
                key_set(active@).contains(k) implies snap.contains_key(k) by {
                let j = choose|j: int|
                    0 <= j < active@.len() && k == (#[trigger] active@[j].0@, active@[j].1);
                lemma_snap_insert_index(Map::empty(), fv, j);
            }
            assert forall|k: (Seq<char>, u16)| #[trigger]
                snap.contains_key(k) implies key_set(active@).contains(k) by {
                lemma_snap_insert_contains(Map::empty(), fv, k);
                let j = choose|j: int| 0 <= j < fv.len() && (#[trigger] fv[j].0, fv[j].1) == k;
                assert((active@[j].0@, active@[j].1) == k);
            }
            assert(key_set(active@) =~= snap.dom()) by {
                assert(forall|k: (Seq<char>, u16)| #[trigger]
                    snap.contains_key(k) == snap.dom().contains(k));
            }
            assert forall|k: (Seq<char>, u16)| #[trigger]
                snap.contains_key(k) implies in_keys(fv, k) by {
                lemma_snap_insert_contains(Map::empty(), fv, k);
            }
            assert forall|k: (Seq<char>, u16)|
                in_keys(fv, k) implies #[trigger] snap.contains_key(k) by {
                lemma_snap_insert_contains(Map::empty(), fv, k);
            }
        }
        self.previous_counters.retain(&active);
        self.current_metrics.retain(&active);
        self.history.retain_ports(&active);
        self.last_collection = Some(now_ms);
        proof {
            let ghost mm = Map::<(Seq<char>, u16), PortMetrics>::new(
                |k: (Seq<char>, u16)| snap.contains_key(k) && prev0.contains_key(k),
                |k: (Seq<char>, u16)| spec_rates(prev0[k], snap[k], elapsed as int),
            );
            assert(self.spec_prev() == prev1.restrict(snap.dom()));
            assert(self.spec_metrics() == met1.restrict(snap.dom()));
            assert(self.history@ == hist1.restrict(snap.dom()));
            // cached snapshots are exactly this poll's snapshot map
            assert forall|k: (Seq<char>, u16)| #[trigger]
                self.spec_prev().contains_key(k) implies snap.contains_key(k)
                && self.spec_prev()[k] == snap[k] by {
                let j = choose|j: int| 0 <= j < fv.len() && (#[trigger] fv[j].0, fv[j].1) == k;
                lemma_snap_insert_index(prev0, fv, j);
                lemma_snap_insert_index(Map::empty(), fv, j);
            }
            assert forall|k: (Seq<char>, u16)| #[trigger]
                snap.contains_key(k) implies self.spec_prev().contains_key(k) by {
                lemma_snap_insert_contains(prev0, fv, k);
            }
            assert(self.spec_prev() =~= snap);
            // emitted samples are exactly the poll-and-cached entities
            assert forall|k: (Seq<char>, u16)| #[trigger]
                self.spec_metrics().contains_key(k) implies mm.contains_key(k)
                && self.spec_metrics()[k] == mm[k] by {
                assert(snap.contains_key(k));
                assert(in_keys(fv, k));
                if !prev0.contains_key(k) {
                    assert(met1.contains_key(k) == met0.contains_key(k));
                    assert(met0.contains_key(k) ==> prev0.contains_key(k));
                }
            }
            assert forall|k: (Seq<char>, u16)| #[trigger]
                mm.contains_key(k) implies self.spec_metrics().contains_key(k) by {
                assert(in_keys(fv, k));
                assert(met1.contains_key(k));
            }
            assert(self.spec_metrics() =~= mm);
            // histories: recorded for poll-and-cached entities, gone elsewhere
            assert forall|k: (Seq<char>, u16)| #[trigger]
                self.history@.contains_key(k) implies snap.contains_key(k)
                && prev0.contains_key(k) by {
                assert(snap.contains_key(k));
                assert(in_keys(fv, k));
                if !prev0.contains_key(k) {
                    assert(hist1.contains_key(k) == hist0.contains_key(k));
                    assert(hist0.contains_key(k) ==> prev0.contains_key(k));
                }
            }
            assert forall|k: (Seq<char>, u16)|
                snap.contains_key(k) && prev0.contains_key(k) implies #[trigger]
                self.history@.contains_key(k) && sample_recorded(
                    hist0,
                    self.history@,
                    k,
                    cap,
                    spec_rates(prev0[k], snap[k], elapsed as int),
                ) by {
                assert(in_keys(fv, k));
                assert(sample_recorded(
                    hist0,
                    hist1,
                    k,
                    cap,
                    spec_rates(prev0[k], snap[k], elapsed as int),
                ));
                assert(hist1.contains_key(k));
                assert(self.history@.contains_key(k));
                assert(self.history@[k] == hist1[k]);
            }
        }
    }

    /// The latest rate sample for an entity, if one has been emitted and
    /// the entity is still present.
    pub fn get_metrics(&self, adapter_name: &str, port_number: u16) -> (r: Option<&PortMetrics>)
        requires
            self.inv(),
        ensures
            match r {
                Some(m) => self.spec_metrics().contains_key((adapter_name@, port_number)) && *m
                    == self.spec_metrics()[(adapter_name@, port_number)],
                None => !self.spec_metrics().contains_key((adapter_name@, port_number)),
            },
    {
        self.current_metrics.get(adapter_name, port_number)
    }

    /// The rate history for an entity, if it is tracked.
    pub fn get_history(&self, adapter_name: &str, port_number: u16) -> (r: Option<&PortHistory>)
        requires
            self.inv(),
        ensures
            match r {
                Some(h) => self.history@.contains_key((adapter_name@, port_number)) && *h
                    == self.history@[(adapter_name@, port_number)] && h.inv(),
                None => !self.history@.contains_key((adapter_name@, port_number)),
            },
    {
        self.history.get(adapter_name, port_number)
    }
}

/// The view of one flattened exec triple.
pub open spec fn triple_view(t: (String, u16, PortCounters)) -> (Seq<char>, u16, PortCounters) {
    (t.0@, t.1, t.2)
}

/// The view of a flattened exec poll.
pub open spec fn flat_view(s: Seq<(String, u16, PortCounters)>) -> Seq<
    (Seq<char>, u16, PortCounters),
> {
    s.map(|i: int, t: (String, u16, PortCounters)| triple_view(t))
}

/// Flatten a poll into one `(adapter, port, counters)` triple per entity.
pub(crate) fn flatten(adapters: &Vec<AdapterInfo>) -> (r: Vec<(String, u16, PortCounters)>)
    ensures
        flat_view(r@) == flat_of(adapters@),
{
    let mut r: Vec<(String, u16, PortCounters)> = Vec::new();
    let n = adapters.len();
    let mut ai: usize = 0;
    proof {
        assert(flat_view(r@) =~= flat_of(adapters@.take(0)));
    }
    while ai < n
        invariant
            n == adapters@.len(),
            ai <= n,
            flat_view(r@) == flat_of(adapters@.take(ai as int)),
        decreases n - ai,
    {
        let a = &adapters[ai];
        let pn = a.ports.len();
        let mut pi: usize = 0;
        while pi < pn
            invariant
                n == adapters@.len(),
                ai < n,
                *a == adapters@[ai as int],
                pn == a.ports@.len(),
                pi <= pn,
                flat_view(r@) =~= flat_of(adapters@.take(ai as int)) + ports_of(
                    adapters@[ai as int],
                ).take(pi as int),
            decreases pn - pi,
        {
            let p = &a.ports[pi];
            let tup = (a.name.clone(), p.port_number, p.counters);
            let ghost tv = triple_view(tup);
            let ghost prev_r = r@;
            proof {
                assert(tv == (adapters@[ai as int].name@, adapters@[ai as int].ports@[pi as int].port_number, adapters@[ai as int].ports@[pi as int].counters));
            }
            r.push(tup);
            proof {
                assert(flat_view(r@) =~= flat_view(prev_r).push(tv)) by {
                    assert(forall|j: int| 0 <= j < prev_r.len() ==> r@[j] == #[trigger] prev_r[j]);
                    assert(r@[prev_r.len() as int] == tup);
                    assert(forall|j: int|
                        0 <= j <= prev_r.len() ==> #[trigger] flat_view(r@)[j] == triple_view(
                            r@[j],
                        ));
                }
                assert(ports_of(adapters@[ai as int])[pi as int] == (
                    adapters@[ai as int].name@,
                    adapters@[ai as int].ports@[pi as int].port_number,
                    adapters@[ai as int].ports@[pi as int].counters,
                ));
                assert(flat_view(r@) =~= flat_of(adapters@.take(ai as int)) + ports_of(
                    adapters@[ai as int],
                ).take(pi + 1));
            }
            pi = pi + 1;
        }
        proof {
            assert(ports_of(adapters@[ai as int]).take(pn as int) =~= ports_of(
                adapters@[ai as int],
            ));
            assert(adapters@.take(ai + 1).drop_last() =~= adapters@.take(ai as int));
            assert(adapters@.take(ai + 1).last() == adapters@[ai as int]);
            assert(flat_view(r@) =~= flat_of(adapters@.take(ai + 1)));
        }
        ai = ai + 1;
    }
    proof {
        assert(adapters@.take(n as int) =~= adapters@);
    }
    r
}

/// The key list of a flattened poll, for eviction.
fn keys_of(flat: &Vec<(String, u16, PortCounters)>) -> (r: Vec<(String, u16)>)
    ensures
        r@.len() == flat@.len(),
        forall|j: int|
            0 <= j < flat@.len() ==> (#[trigger] r@[j].0@, r@[j].1) == (flat@[j].0@, flat@[j].1),
{
    let mut r: Vec<(String, u16)> = Vec::new();
    let n = flat.len();
    let mut i: usize = 0;
    while i < n
        invariant
            n == flat@.len(),
            i <= n,
            r@.len() == i,
            forall|j: int|
                0 <= j < i ==> (#[trigger] r@[j].0@, r@[j].1) == (flat@[j].0@, flat@[j].1),
        decreases n - i,
    {
        let e = &flat[i];
        r.push((e.0.clone(), e.1));
        i = i + 1;
    }
    r
}

} // verus!
