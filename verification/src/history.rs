//! Ring-buffer storage for bounded time-series history.

use crate::portmap::PortMap;
use vstd::pervasive::VecAdditionalExecFns;
use vstd::prelude::*;

verus! {

/// Default history length (number of samples) per channel.
pub const DEFAULT_HISTORY_SIZE: usize = 120;

/// What one push does to the chronological contents of a ring buffer of
/// capacity `cap`: the value is appended, and when the buffer is already
/// full the oldest element is dropped.
pub open spec fn ring_push<T>(s: Seq<T>, cap: int, v: T) -> Seq<T> {
    if s.len() < cap {
        s.push(v)
    } else {
        s.skip(1).push(v)
    }
}

/// The contents of a ring buffer of capacity `cap` after pushing every value
/// of `vs` in order, starting from contents `s`.
pub open spec fn ring_push_all<T>(s: Seq<T>, cap: int, vs: Seq<T>) -> Seq<T>
    decreases vs.len(),
{
    if vs.len() == 0 {
        s
    } else {
        ring_push(ring_push_all(s, cap, vs.drop_last()), cap, vs.last())
    }
}

/// Law: starting from contents `s`, pushing the values of `vs` leaves exactly
/// the most recent `min(cap, s.len() + vs.len())` values of the combined
/// stream, in chronological order.
pub proof fn lemma_ring_push_all_keeps_latest<T>(s: Seq<T>, cap: int, vs: Seq<T>)
    requires
        cap >= 1,
        s.len() <= cap,
    ensures
        ring_push_all(s, cap, vs) == (s + vs).skip(
            if s.len() + vs.len() > cap {
                s.len() + vs.len() - cap
            } else {
                0
            },
        ),
    decreases vs.len(),
{
    if vs.len() == 0 {
        assert(s + vs =~= s);
        assert(s.skip(0) =~= s);
    } else {
        let prefix = vs.drop_last();
        lemma_ring_push_all_keeps_latest(s, cap, prefix);
        let before = ring_push_all(s, cap, prefix);
        let total = s + vs;
        if s.len() + prefix.len() > cap {
            assert(before =~= (s + prefix).skip(s.len() + prefix.len() - cap));
            assert(before.len() == cap);
            assert(before.skip(1).push(vs.last()) =~= total.skip(total.len() - cap));
        } else {
            assert(before =~= (s + prefix).skip(0));
            if before.len() < cap {
                assert(before.push(vs.last()) =~= total.skip(0));
            } else {
                assert(before.skip(1).push(vs.last()) =~= total.skip(1));
            }
        }
    }
}

/// Law: for every capacity `cap >= 1` and every push sequence `vs`, a ring
/// buffer filled from empty holds at most `cap` values; after at least `cap`
/// pushes it holds exactly `cap`, namely the most recent values of `vs` in
/// chronological order (FIFO overwrite).
pub proof fn lemma_ring_buffer_bounded_fifo<T>(cap: int, vs: Seq<T>)
    requires
        cap >= 1,
    ensures
        ring_push_all(Seq::<T>::empty(), cap, vs) == vs.skip(
            if vs.len() > cap {
                vs.len() - cap
            } else {
                0
            },
        ),
        ring_push_all(Seq::<T>::empty(), cap, vs).len() <= cap,
        vs.len() >= cap ==> ring_push_all(Seq::<T>::empty(), cap, vs).len() == cap,
{
    lemma_ring_push_all_keeps_latest(Seq::<T>::empty(), cap, vs);
    assert(Seq::<T>::empty() + vs =~= vs);
}

/// Fixed-capacity circular sample store. Once full, every push silently
/// overwrites the oldest element (FIFO eviction). The capacity is fixed at
/// construction and must be at least 1.
pub struct RingBuffer<T> {
    data: Vec<T>,
    capacity: usize,
    write_pos: usize,
}

impl<T> View for RingBuffer<T> {
    type V = Seq<T>;

    /// The stored values in chronological order, oldest first.
    closed spec fn view(&self) -> Seq<T> {
        if self.data@.len() < self.capacity {
            self.data@
        } else {
            self.data@.subrange(self.write_pos as int, self.capacity as int) + self.data@.subrange(
                0,
                self.write_pos as int,
            )
        }
    }
}

impl<T: Copy> RingBuffer<T> {
    pub closed spec fn spec_capacity(&self) -> int {
        self.capacity as int
    }

    pub closed spec fn inv(&self) -> bool {
        &&& self.capacity >= 1
        &&& self.data@.len() <= self.capacity
        &&& if self.data@.len() < self.capacity {
            self.write_pos == self.data@.len()
        } else {
            self.write_pos < self.capacity
        }
    }

    /// Create a new ring buffer with the specified capacity.
    pub fn new(capacity: usize) -> (r: Self)
        requires
            capacity >= 1,
        ensures
            r.inv(),
            r@ == Seq::<T>::empty(),
            r.spec_capacity() == capacity,
    {
        let r = RingBuffer { data: Vec::new(), capacity, write_pos: 0 };
        proof {
            assert(r@ =~= Seq::<T>::empty());
        }
        r
    }

    /// Push a new value, overwriting the oldest one when full.
    pub fn push(&mut self, value: T)
        requires
            old(self).inv(),
        ensures
            final(self).inv(),
            final(self).spec_capacity() == old(self).spec_capacity(),
            final(self)@ == ring_push(old(self)@, old(self).spec_capacity(), value),
            final(self)@.len() == if old(self)@.len() < old(self).spec_capacity() {
                old(self)@.len() + 1
            } else {
                old(self).spec_capacity() as nat
            },
    {
        if self.data.len() < self.capacity {
            self.data.push(value);
            self.write_pos = self.write_pos + 1;
            if self.write_pos == self.capacity {
                self.write_pos = 0;
            }
            proof {
                if self.data@.len() == self.capacity {
                    assert(self@ =~= old(self)@.push(value));
                } else {
                    assert(self@ =~= old(self)@.push(value));
                }
            }
        } else {
            self.data.set(self.write_pos, value);
            self.write_pos = self.write_pos + 1;
            if self.write_pos == self.capacity {
                self.write_pos = 0;
            }
            proof {
                assert(self@ =~= old(self)@.skip(1).push(value));
            }
        }
    }

    /// Number of elements currently stored.
    pub fn len(&self) -> (r: usize)
        requires
            self.inv(),
        ensures
            r == self@.len(),
    {
        self.data.len()
    }

    /// True when nothing has been pushed yet (or after a clear).
    pub fn is_empty(&self) -> (r: bool)
        requires
            self.inv(),
        ensures
            r == (self@.len() == 0),
    {
        self.data.len() == 0
    }

    /// The most recent value, if any.
    pub fn last(&self) -> (r: Option<&T>)
        requires
            self.inv(),
        ensures
            match r {
                Some(v) => self@.len() > 0 && *v == self@.last(),
                None => self@.len() == 0,
            },
    {
        if self.data.len() == 0 {
            return None;
        }
        let idx = if self.write_pos == 0 {
            self.capacity - 1
        } else {
            self.write_pos - 1
        };
        Some(&self.data[idx])
    }

    /// All stored values in chronological order, oldest first.
    pub fn iter(&self) -> (r: Vec<T>)
        requires
            self.inv(),
        ensures
            r@ == self@,
    {
        let len = self.data.len();
        let start: usize = if len < self.capacity {
            0
        } else {
            self.write_pos
        };
        let mut r: Vec<T> = Vec::new();
        let mut i: usize = 0;
        while i < len
            invariant
                self.inv(),
                len == self.data@.len(),
                start == if len < self.capacity {
                    0int
                } else {
                    self.write_pos as int
                },
                i <= len,
                r@ =~= self@.subrange(0, i as int),
            decreases len - i,
        {
            let idx = if i < self.capacity - start {
                start + i
            } else {
                i - (self.capacity - start)
            };
            r.push(self.data[idx]);
            proof {
                assert(r@ =~= self@.subrange(0, i + 1 as int));
            }
            i = i + 1;
        }
        proof {
            assert(r@ =~= self@);
        }
        r
    }

    /// The `min(n, len)` most recent values, in chronological order.
    pub fn last_n(&self, n: usize) -> (r: Vec<T>)
        requires
            self.inv(),
        ensures
            r@ == self@.skip(if n < self@.len() {
                self@.len() - n
            } else {
                0
            }),
    {
        let all = self.iter();
        let len = all.len();
        let skip_count: usize = if n < len {
            len - n
        } else {
            0
        };
        let mut r: Vec<T> = Vec::new();
        let mut i: usize = skip_count;
        while i < len
            invariant
                all@ == self@,
                len == all@.len(),
                skip_count <= i <= len,
                r@ =~= self@.subrange(skip_count as int, i as int),
            decreases len - i,
        {
            r.push(all[i]);
            proof {
                assert(r@ =~= self@.subrange(skip_count as int, i + 1 as int));
            }
            i = i + 1;
        }
        proof {
            assert(r@ =~= self@.skip(skip_count as int));
        }
        r
    }

    /// All stored values as a vector, oldest first.
    pub fn to_vec(&self) -> (r: Vec<T>)
        requires
            self.inv(),
        ensures
            r@ == self@,
    {
        self.iter()
    }

    /// Drop all stored values; the capacity is unchanged.
    pub fn clear(&mut self)
        requires
            old(self).inv(),
        ensures
            final(self).inv(),
            final(self).spec_capacity() == old(self).spec_capacity(),
            final(self)@ == Seq::<T>::empty(),
    {
        self.data.clear();
        self.write_pos = 0;
        proof {
            assert(self@ =~= Seq::<T>::empty());
        }
    }

    /// The fixed capacity chosen at construction.
    pub fn capacity(&self) -> (r: usize)
        ensures
            r == self.spec_capacity(),
    {
        self.capacity
    }
}

/// The `min(n, len)` most recent values of a series, in order.
pub open spec fn window(s: Seq<u64>, n: int) -> Seq<u64> {
    s.skip(
        if n < s.len() {
            s.len() - n
        } else {
            0
        },
    )
}

/// The elementwise saturating sum of two equally long windows (truncated to
/// the shorter one).
pub open spec fn sum_series(a: Seq<u64>, b: Seq<u64>) -> Seq<u64> {
    Seq::new(
        if a.len() < b.len() {
            a.len()
        } else {
            b.len()
        },
        |i: int| add_saturating(a[i] as int, b[i] as int) as u64,
    )
}

/// Half-up rounding of `v * 7 / max`: the quantization level, 0 to 7, of a
/// sample relative to the window maximum `max`.
pub open spec fn spec_level(v: int, max: int) -> int
    recommends
        max >= 1,
{
    (14 * v + max) / (2 * max)
}

/// The sparkline levels of a sample window: all zero when the maximum is
/// zero, otherwise each sample quantized against the window maximum.
pub open spec fn spec_levels(s: Seq<u64>, max: int) -> Seq<u64> {
    if max <= 0 {
        s.map_values(|v: u64| 0u64)
    } else {
        s.map_values(|v: u64| spec_level(v as int, max) as u64)
    }
}

/// The largest value of `s`, or 0 when `s` is empty.
pub open spec fn seq_max(s: Seq<u64>) -> int
    decreases s.len(),
{
    if s.len() == 0 {
        0
    } else if s.last() as int >= seq_max(s.drop_last()) {
        s.last() as int
    } else {
        seq_max(s.drop_last())
    }
}

proof fn lemma_seq_max(s: Seq<u64>)
    ensures
        seq_max(s) >= 0,
        forall|i: int| 0 <= i < s.len() ==> s[i] <= seq_max(s),
        s.len() > 0 ==> exists|i: int| 0 <= i < s.len() && s[i] == seq_max(s),
    decreases s.len(),
{
    if s.len() > 0 {
        lemma_seq_max(s.drop_last());
        assert(forall|i: int| 0 <= i < s.len() - 1 ==> #[trigger] s[i] == s.drop_last()[i]);
        if s.len() > 1 && (s.last() as int) < seq_max(s.drop_last()) {
            let i = choose|i: int|
                0 <= i < s.drop_last().len() && s.drop_last()[i] == seq_max(s.drop_last());
            assert(s[i] == seq_max(s));
        } else if s.last() as int >= seq_max(s.drop_last()) {
            assert(s[s.len() - 1] == seq_max(s));
        }
    }
}

fn max_of(values: &Vec<u64>) -> (r: u64)
    ensures
        r as int == seq_max(values@),
        forall|i: int| 0 <= i < values@.len() ==> values@[i] <= r,
{
    let mut r: u64 = 0;
    let mut i: usize = 0;
    while i < values.len()
        invariant
            i <= values@.len(),
            r as int == seq_max(values@.take(i as int)),
        decreases values@.len() - i,
    {
        proof {
            assert(values@.take(i + 1).drop_last() =~= values@.take(i as int));
            assert(values@.take(i + 1).last() == values@[i as int]);
        }
        if values[i] > r {
            r = values[i];
        }
        i = i + 1;
    }
    proof {
        assert(values@.take(values@.len() as int) =~= values@);
        lemma_seq_max(values@);
    }
    r
}

/// Quantize a sample window to 8 sparkline levels (0 to 7), rounding half
/// up against the window maximum. An all-zero or empty window yields all
/// zeros; a window maximum maps to level 7 and a zero sample to level 0.
pub fn normalize_for_sparkline(values: &Vec<u64>) -> (r: Vec<u64>)
    ensures
        r@ == spec_levels(values@, seq_max(values@)),
        forall|i: int| 0 <= i < r@.len() ==> #[trigger] r@[i] <= 7,
{
    let max = max_of(values);
    let mut r: Vec<u64> = Vec::new();
    let mut i: usize = 0;
    if max == 0 {
        while i < values.len()
            invariant
                max == 0,
                max as int == seq_max(values@),
                i <= values@.len(),
                r@ =~= spec_levels(values@, seq_max(values@)).take(i as int),
                forall|j: int| 0 <= j < r@.len() ==> #[trigger] r@[j] <= 7,
            decreases values@.len() - i,
        {
            r.push(0);
            proof {
                assert(r@ =~= spec_levels(values@, seq_max(values@)).take(i + 1));
            }
            i = i + 1;
        }
    } else {
        while i < values.len()
            invariant
                max >= 1,
                max as int == seq_max(values@),
                forall|j: int| 0 <= j < values@.len() ==> values@[j] <= max,
                i <= values@.len(),
                r@ =~= spec_levels(values@, seq_max(values@)).take(i as int),
                forall|j: int| 0 <= j < r@.len() ==> #[trigger] r@[j] <= 7,
            decreases values@.len() - i,
        {
            let v = values[i];
            let wide: u128 = 14u128 * (v as u128) + (max as u128);
            let level: u128 = wide / (2u128 * (max as u128));
            proof {
                assert(v <= max);
                assert((14 * (v as int) + max as int) / (2 * max as int) <= 7) by (nonlinear_arith)
                    requires
                        1 <= max as int,
                        0 <= v as int <= max as int,
                ;
                assert((14 * (v as int) + max as int) / (2 * max as int) >= 0) by (nonlinear_arith)
                    requires
                        1 <= max as int,
                        0 <= v as int,
                ;
                assert(level as int == spec_level(v as int, max as int));
            }
            r.push(level as u64);
            proof {
                assert(r@ =~= spec_levels(values@, seq_max(values@)).take(i + 1));
            }
            i = i + 1;
        }
    }
    proof {
        assert(spec_levels(values@, seq_max(values@)).take(values@.len() as int) =~= spec_levels(
            values@,
            seq_max(values@),
        ));
    }
    r
}

/// Law: in any window, a sample equal to a positive window maximum is
/// quantized to level 7 and a zero sample to level 0; when the maximum is
/// zero every level is 0.
pub proof fn lemma_sparkline_extremes(s: Seq<u64>, i: int)
    requires
        0 <= i < s.len(),
    ensures
        spec_levels(s, seq_max(s)).len() == s.len(),
        s[i] == 0 ==> spec_levels(s, seq_max(s))[i] == 0,
        s[i] as int == seq_max(s) && seq_max(s) > 0 ==> spec_levels(s, seq_max(s))[i] == 7,
{
    lemma_seq_max(s);
    let max = seq_max(s);
    if max > 0 {
        if s[i] == 0 {
            assert((14 * 0 + max) / (2 * max) == 0) by (nonlinear_arith)
                requires
                    max >= 1,
            ;
        }
        if s[i] as int == max {
            assert((14 * max + max) / (2 * max) == 7) by (nonlinear_arith)
                requires
                    max >= 1,
            ;
        }
    }
}

/// Historical rate series for a single port: five ring-buffer channels of
/// the same capacity, one per rate field, created together.
pub struct PortHistory {
    pub rx_bytes_per_sec: RingBuffer<u64>,
    pub tx_bytes_per_sec: RingBuffer<u64>,
    pub rx_packets_per_sec: RingBuffer<u64>,
    pub tx_packets_per_sec: RingBuffer<u64>,
    pub error_rate: RingBuffer<u64>,
}

impl PortHistory {
    /// All five channels are well formed and share one capacity.
    pub open spec fn inv(&self) -> bool {
        &&& self.rx_bytes_per_sec.inv()
        &&& self.tx_bytes_per_sec.inv()
        &&& self.rx_packets_per_sec.inv()
        &&& self.tx_packets_per_sec.inv()
        &&& self.error_rate.inv()
        &&& self.tx_bytes_per_sec.spec_capacity() == self.rx_bytes_per_sec.spec_capacity()
        &&& self.rx_packets_per_sec.spec_capacity() == self.rx_bytes_per_sec.spec_capacity()
        &&& self.tx_packets_per_sec.spec_capacity() == self.rx_bytes_per_sec.spec_capacity()
        &&& self.error_rate.spec_capacity() == self.rx_bytes_per_sec.spec_capacity()
    }

    pub open spec fn spec_capacity(&self) -> int {
        self.rx_bytes_per_sec.spec_capacity()
    }

    /// All five channels are empty.
    pub open spec fn is_empty_history(&self) -> bool {
        &&& self.rx_bytes_per_sec@ == Seq::<u64>::empty()
        &&& self.tx_bytes_per_sec@ == Seq::<u64>::empty()
        &&& self.rx_packets_per_sec@ == Seq::<u64>::empty()
        &&& self.tx_packets_per_sec@ == Seq::<u64>::empty()
        &&& self.error_rate@ == Seq::<u64>::empty()
    }

    /// A history with the default capacity.
    pub fn new() -> (r: Self)
        ensures
            r.inv(),
            r.is_empty_history(),
            r.spec_capacity() == DEFAULT_HISTORY_SIZE,
    {
        Self::with_capacity(DEFAULT_HISTORY_SIZE)
    }

    /// A history whose channels all have capacity `capacity`.
    pub fn with_capacity(capacity: usize) -> (r: Self)
        requires
            capacity >= 1,
        ensures
            r.inv(),
            r.is_empty_history(),
            r.spec_capacity() == capacity,
    {
        PortHistory {
            rx_bytes_per_sec: RingBuffer::new(capacity),
            tx_bytes_per_sec: RingBuffer::new(capacity),
            rx_packets_per_sec: RingBuffer::new(capacity),
            tx_packets_per_sec: RingBuffer::new(capacity),
            error_rate: RingBuffer::new(capacity),
        }
    }

    /// Append one rate sample: each field goes to its channel.
    pub fn record(&mut self, rx_bps: u64, tx_bps: u64, rx_pps: u64, tx_pps: u64, errors: u64)
        requires
            old(self).inv(),
        ensures
            final(self).inv(),
            final(self).spec_capacity() == old(self).spec_capacity(),
            final(self).rx_bytes_per_sec@ == ring_push(
                old(self).rx_bytes_per_sec@,
                old(self).spec_capacity(),
                rx_bps,
            ),
            final(self).tx_bytes_per_sec@ == ring_push(
                old(self).tx_bytes_per_sec@,
                old(self).spec_capacity(),
                tx_bps,
            ),
            final(self).rx_packets_per_sec@ == ring_push(
                old(self).rx_packets_per_sec@,
                old(self).spec_capacity(),
                rx_pps,
            ),
            final(self).tx_packets_per_sec@ == ring_push(
                old(self).tx_packets_per_sec@,
                old(self).spec_capacity(),
                tx_pps,
            ),
            final(self).error_rate@ == ring_push(
                old(self).error_rate@,
                old(self).spec_capacity(),
                errors,
            ),
    {
        self.rx_bytes_per_sec.push(rx_bps);
        self.tx_bytes_per_sec.push(tx_bps);
        self.rx_packets_per_sec.push(rx_pps);
        self.tx_packets_per_sec.push(tx_pps);
        self.error_rate.push(errors);
    }

    /// Sparkline levels of the most recent `samples` receive-rate values.
    pub fn rx_sparkline_data(&self, samples: usize) -> (r: Vec<u64>)
        requires
            self.inv(),
        ensures
            r@ == ({
                let w = window(self.rx_bytes_per_sec@, samples as int);
                spec_levels(w, seq_max(w))
            }),
            forall|i: int| 0 <= i < r@.len() ==> #[trigger] r@[i] <= 7,
    {
        let window = self.rx_bytes_per_sec.last_n(samples);
        normalize_for_sparkline(&window)
    }

    /// Sparkline levels of the most recent `samples` transmit-rate values.
    pub fn tx_sparkline_data(&self, samples: usize) -> (r: Vec<u64>)
        requires
            self.inv(),
        ensures
            r@ == ({
                let w = window(self.tx_bytes_per_sec@, samples as int);
                spec_levels(w, seq_max(w))
            }),
            forall|i: int| 0 <= i < r@.len() ==> #[trigger] r@[i] <= 7,
    {
        let window = self.tx_bytes_per_sec.last_n(samples);
        normalize_for_sparkline(&window)
    }

    /// Sparkline levels of the elementwise sum of the most recent `samples`
    /// receive and transmit rates: the two windows are summed first and the
    /// summed series is quantized against its own maximum.
    pub fn combined_sparkline_data(&self, samples: usize) -> (r: Vec<u64>)
        requires
            self.inv(),
        ensures
            r@ == ({
                let s = sum_series(
                    window(self.rx_bytes_per_sec@, samples as int),
                    window(self.tx_bytes_per_sec@, samples as int),
                );
                spec_levels(s, seq_max(s))
            }),
            forall|i: int| 0 <= i < r@.len() ==> #[trigger] r@[i] <= 7,
    {
        let rx = self.rx_bytes_per_sec.last_n(samples);
        let tx = self.tx_bytes_per_sec.last_n(samples);
        let n = if rx.len() < tx.len() {
            rx.len()
        } else {
            tx.len()
        };
        let mut combined: Vec<u64> = Vec::new();
        let mut i: usize = 0;
        while i < n
            invariant
                n == if rx@.len() < tx@.len() {
                    rx@.len() as int
                } else {
                    tx@.len() as int
                },
                i <= n,
                combined@ =~= sum_series(rx@, tx@).take(i as int),
            decreases n - i,
        {
            let sum = if rx[i] <= u64::MAX - tx[i] {
                rx[i] + tx[i]
            } else {
                u64::MAX
            };
            combined.push(sum);
            proof {
                assert(combined@ =~= sum_series(rx@, tx@).take(i + 1));
            }
            i = i + 1;
        }
        proof {
            assert(combined@ =~= sum_series(rx@, tx@));
        }
        normalize_for_sparkline(&combined)
    }

    /// Peak combined throughput: the largest receive rate plus the largest
    /// transmit rate seen in the retained history, saturating at the integer
    /// limit.
    pub fn peak_throughput(&self) -> (r: u64)
        requires
            self.inv(),
        ensures
            r as int == add_saturating(
                seq_max(self.rx_bytes_per_sec@),
                seq_max(self.tx_bytes_per_sec@),
            ),
    {
        let rx = self.rx_bytes_per_sec.to_vec();
        let tx = self.tx_bytes_per_sec.to_vec();
        let rx_max = max_of(&rx);
        let tx_max = max_of(&tx);
        if rx_max <= u64::MAX - tx_max {
            rx_max + tx_max
        } else {
            u64::MAX
        }
    }

    /// Mean combined throughput over the retained history: the sum of every
    /// stored receive and transmit rate divided by the number of samples,
    /// rounded down and saturating at the integer limit; zero when the
    /// history is empty.
    pub fn avg_throughput(&self) -> (r: u64)
        requires
            self.inv(),
        ensures
            self.rx_bytes_per_sec@.len() == 0 ==> r == 0,
            self.rx_bytes_per_sec@.len() > 0 ==> r as int == ({
                let avg = (seq_sum(self.rx_bytes_per_sec@) + seq_sum(self.tx_bytes_per_sec@)) / (
                self.rx_bytes_per_sec@.len() as int);
                if avg < u64::MAX {
                    avg
                } else {
                    u64::MAX as int
                }
            }),
    {
        if self.rx_bytes_per_sec.is_empty() {
            return 0;
        }
        let rx = self.rx_bytes_per_sec.to_vec();
        let tx = self.tx_bytes_per_sec.to_vec();
        let rx_sum = sum_of(&rx);
        let tx_sum = sum_of(&tx);
        let len = self.rx_bytes_per_sec.len();
        let ghost total = seq_sum(self.rx_bytes_per_sec@) + seq_sum(self.tx_bytes_per_sec@);
        proof {
            lemma_seq_sum_bound(rx@);
            lemma_seq_sum_bound(tx@);
        }
        let sum: u128 = if rx_sum <= u128::MAX - tx_sum {
            rx_sum + tx_sum
        } else {
            u128::MAX
        };
        let avg: u128 = sum / (len as u128);
        proof {
            assert(len as int <= u64::MAX as int);
            if rx_sum as int + tx_sum as int > u128::MAX as int {
                // The exact total exceeds the saturated one, so both
                // averages land at or above the u64 limit.
                assert((u64::MAX as int) * (len as int) <= u128::MAX as int) by (nonlinear_arith)
                    requires
                        1 <= len as int <= u64::MAX as int,
                ;
                assert(avg as int >= u64::MAX as int) by (nonlinear_arith)
                    requires
                        avg as int == (u128::MAX as int) / (len as int),
                        (u64::MAX as int) * (len as int) <= u128::MAX as int,
                        1 <= len as int,
                ;
                assert(total / (len as int) >= u64::MAX as int) by (nonlinear_arith)
                    requires
                        total > u128::MAX as int,
                        (u64::MAX as int) * (len as int) <= u128::MAX as int,
                        1 <= len as int,
                ;
            }
        }
        if avg >= u64::MAX as u128 {
            u64::MAX
        } else {
            avg as u64
        }
    }
}

/// `a + b` capped at the largest u64 value.
pub open spec fn add_saturating(a: int, b: int) -> int {
    if a + b <= u64::MAX {
        a + b
    } else {
        u64::MAX as int
    }
}

/// The sum of all values of `s`.
pub open spec fn seq_sum(s: Seq<u64>) -> int
    decreases s.len(),
{
    if s.len() == 0 {
        0
    } else {
        seq_sum(s.drop_last()) + s.last()
    }
}

proof fn lemma_seq_sum_bound(s: Seq<u64>)
    ensures
        0 <= seq_sum(s) <= s.len() * (u64::MAX as int),
    decreases s.len(),
{
    if s.len() == 0 {
    } else {
        lemma_seq_sum_bound(s.drop_last());
        assert((s.len() - 1) * (u64::MAX as int) + u64::MAX as int == s.len() * (
        u64::MAX as int)) by (nonlinear_arith);
    }
}

fn sum_of(values: &Vec<u64>) -> (r: u128)
    ensures
        r as int == seq_sum(values@),
{
    let mut r: u128 = 0;
    let mut i: usize = 0;
    let n = values.len();
    proof {
        lemma_seq_sum_bound(values@);
    }
    while i < n
        invariant
            n == values@.len(),
            i <= n,
            r as int == seq_sum(values@.take(i as int)),
            r as int <= (i as int) * (u64::MAX as int),
        decreases n - i,
    {
        proof {
            assert(values@.take(i + 1).drop_last() =~= values@.take(i as int));
            assert(values@.take(i + 1).last() == values@[i as int]);
            assert((i as int) * (u64::MAX as int) + u64::MAX as int == (i + 1) * (
            u64::MAX as int)) by (nonlinear_arith);
            assert((i + 1) * (u64::MAX as int) < u128::MAX as int) by (nonlinear_arith)
                requires
                    0 <= (i as int) < (usize::MAX as int),
                    usize::MAX <= u64::MAX,
            ;
        }
        r = r + (values[i] as u128);
        i = i + 1;
    }
    proof {
        assert(values@.take(values@.len() as int) =~= values@);
    }
    r
}

/// Collection of all port histories, keyed by entity.
pub struct HistoryCollector {
    histories: PortMap<PortHistory>,
    capacity: usize,
}

impl HistoryCollector {
    /// Every stored history is well formed with this collector's capacity.
    pub closed spec fn inv(&self) -> bool {
        &&& self.capacity >= 1
        &&& self.histories.inv()
        &&& forall|k: (Seq<char>, u16)| #[trigger]
            self.histories@.contains_key(k) ==> self.histories@[k].inv()
                && self.histories@[k].spec_capacity() == self.capacity
    }

    /// The mapping from entity key to its history.
    pub closed spec fn view(&self) -> Map<(Seq<char>, u16), PortHistory> {
        self.histories@
    }

    pub closed spec fn spec_capacity(&self) -> int {
        self.capacity as int
    }

    /// A collector with the default per-channel capacity.
    pub fn new() -> (r: Self)
        ensures
            r.inv(),
            r@ == Map::<(Seq<char>, u16), PortHistory>::empty(),
            r.spec_capacity() == DEFAULT_HISTORY_SIZE,
    {
        Self::with_capacity(DEFAULT_HISTORY_SIZE)
    }

    /// A collector whose histories get capacity `capacity`.
    pub fn with_capacity(capacity: usize) -> (r: Self)
        requires
            capacity >= 1,
        ensures
            r.inv(),
            r@ == Map::<(Seq<char>, u16), PortHistory>::empty(),
            r.spec_capacity() == capacity,
    {
        HistoryCollector { histories: PortMap::new(), capacity }
    }

    /// The history for a port, created empty on first reference.
    pub fn get_or_create(&mut self, adapter: &str, port: u16) -> (r: &mut PortHistory)
        requires
            old(self).inv(),
        ensures
            final(r).inv() && final(r).spec_capacity() == old(self).spec_capacity()
                ==> final(self).inv(),
            final(self).spec_capacity() == old(self).spec_capacity(),
            r.inv(),
            r.spec_capacity() == old(self).spec_capacity(),
            old(self)@.contains_key((adapter@, port)) ==> *r == old(self)@[(adapter@, port)],
            !old(self)@.contains_key((adapter@, port)) ==> r.is_empty_history(),
            final(self)@ == old(self)@.insert((adapter@, port), *final(r)),
    {
        let fresh = PortHistory::with_capacity(self.capacity);
        self.histories.get_mut_or_insert(adapter, port, fresh)
    }

    /// The history for a port, or nothing if it was never observed or has
    /// been evicted; never creates an entry.
    pub fn get(&self, adapter: &str, port: u16) -> (r: Option<&PortHistory>)
        requires
            self.inv(),
        ensures
            match r {
                Some(h) => self@.contains_key((adapter@, port)) && *h == self@[(adapter@, port)]
                    && h.inv(),
                None => !self@.contains_key((adapter@, port)),
            },
    {
        self.histories.get(adapter, port)
    }

    /// Append one rate sample to the port's history, creating it on first
    /// reference.
    pub fn record(&mut self, adapter: &str, port: u16, rx_bps: u64, tx_bps: u64, rx_pps: u64, tx_pps: u64, errors: u64)
        requires
            old(self).inv(),
        ensures
            final(self).inv(),
            final(self).spec_capacity() == old(self).spec_capacity(),
            final(self)@.dom() == old(self)@.dom().insert((adapter@, port)),
            recorded_into(
                old(self)@,
                final(self)@,
                (adapter@, port),
                old(self).spec_capacity(),
                rx_bps,
                tx_bps,
                rx_pps,
                tx_pps,
                errors,
            ),
            forall|k: (Seq<char>, u16)|
                k != (adapter@, port) && old(self)@.contains_key(k) ==> final(self)@[k]
                    == old(self)@[k],
    {
        let h = self.get_or_create(adapter, port);
        h.record(rx_bps, tx_bps, rx_pps, tx_pps, errors);
        proof {
            assert(self@.dom() =~= old(self)@.dom().insert((adapter@, port)));
        }
    }

    /// Delete every entity whose key is not in `active`.
    pub fn retain_ports(&mut self, active: &Vec<(String, u16)>)
        requires
            old(self).inv(),
        ensures
            final(self).inv(),
            final(self).spec_capacity() == old(self).spec_capacity(),
            final(self)@ == old(self)@.restrict(crate::portmap::key_set(active@)),
    {
        self.histories.retain(active);
    }

    /// All tracked entity keys.
    pub fn keys(&self) -> (r: Vec<(String, u16)>)
        requires
            self.inv(),
        ensures
            r@.len() == self@.dom().len(),
            forall|j: int|
                0 <= j < r@.len() ==> self@.contains_key((#[trigger] r@[j].0@, r@[j].1)),
            forall|k: (Seq<char>, u16)| #[trigger]
                self@.contains_key(k) ==> exists|j: int|
                    0 <= j < r@.len() && (#[trigger] r@[j].0@, r@[j].1) == k,
    {
        self.histories.keys()
    }

    /// Number of tracked entities.
    pub fn port_count(&self) -> (r: usize)
        requires
            self.inv(),
        ensures
            r == self@.dom().len(),
            self@.dom().finite(),
    {
        self.histories.len()
    }
}

/// How one recorded sample relates the history maps before and after: the
/// entity's five channels each gain the matching rate field (a fresh empty
/// history is created first when the key was absent), and every other entry
/// is untouched.
pub open spec fn recorded_into(
    before: Map<(Seq<char>, u16), PortHistory>,
    after: Map<(Seq<char>, u16), PortHistory>,
    k: (Seq<char>, u16),
    cap: int,
    rx_bps: u64,
    tx_bps: u64,
    rx_pps: u64,
    tx_pps: u64,
    errors: u64,
) -> bool {
    let prior_rx = if before.contains_key(k) {
        before[k].rx_bytes_per_sec@
    } else {
        Seq::<u64>::empty()
    };
    let prior_tx = if before.contains_key(k) {
        before[k].tx_bytes_per_sec@
    } else {
        Seq::<u64>::empty()
    };
    let prior_rxp = if before.contains_key(k) {
        before[k].rx_packets_per_sec@
    } else {
        Seq::<u64>::empty()
    };
    let prior_txp = if before.contains_key(k) {
        before[k].tx_packets_per_sec@
    } else {
        Seq::<u64>::empty()
    };
    let prior_err = if before.contains_key(k) {
        before[k].error_rate@
    } else {
        Seq::<u64>::empty()
    };
    &&& after.contains_key(k)
    &&& after[k].rx_bytes_per_sec@ == ring_push(prior_rx, cap, rx_bps)
    &&& after[k].tx_bytes_per_sec@ == ring_push(prior_tx, cap, tx_bps)
    &&& after[k].rx_packets_per_sec@ == ring_push(prior_rxp, cap, rx_pps)
    &&& after[k].tx_packets_per_sec@ == ring_push(prior_txp, cap, tx_pps)
    &&& after[k].error_rate@ == ring_push(prior_err, cap, errors)
}

} // verus!
