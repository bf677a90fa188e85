//! `MetricsEmitter` — frame, drop, beat and hop counters plus a log2 latency histogram,
//! rendered as one line of JSON.
//!
//! Bucket `i` of the histogram counts latencies in `[2^i, 2^(i+1))` µs (latencies below one
//! microsecond count as one). A percentile is reported as the lower edge `2^i` of the first
//! bucket at which the running count reaches the target rank.

use vstd::prelude::*;
use vstd::arithmetic::power2::{pow2, lemma_pow2_strictly_increases};
use vstd::bits::{lemma_u64_shl_is_mul, lemma_u64_pow2_no_overflow};

use crate::clock::{elapsed_ms, instant_now};
use crate::text::{dec, push_str, push_u64};

verus! {

/// Number of histogram buckets.
pub const BUCKETS: usize = 64;

/// `floor(log2(n))`, with `log2(0) = log2(1) = 0`.
pub open spec fn log2(n: nat) -> nat
    decreases n,
{
    if n < 2 {
        0
    } else {
        1 + log2(n / 2)
    }
}

/// The bucket a latency falls in.
pub open spec fn bucket_of(micros: u64) -> int {
    let l = log2(if micros == 0 { 1nat } else { micros as nat });
    if l > 63 { 63 } else { l as int }
}

/// Sum of the first `k` buckets.
pub open spec fn prefix_sum(b: Seq<u64>, k: int) -> int
    decreases k,
{
    if k <= 0 || b.len() == 0 {
        0
    } else if k > b.len() {
        prefix_sum(b, b.len() as int)
    } else {
        prefix_sum(b, k - 1) + b[k - 1]
    }
}

/// Total count held by the histogram.
pub open spec fn total_count(b: Seq<u64>) -> int {
    prefix_sum(b, b.len() as int)
}

/// The rank that the `p`-th percentile must reach: `max(ceil(total · p / 100), 1)`.
pub open spec fn target_rank(total: int, p: int) -> int {
    let t = (total * p + 99) / 100;
    if t < 1 { 1 } else { t }
}

/// Index of the first bucket from `i` on at which the running count reaches `target`
/// (`b.len()` when none does).
pub open spec fn first_reaching(b: Seq<u64>, target: int, i: int) -> int
    decreases b.len() - i,
{
    if i >= b.len() {
        b.len() as int
    } else if prefix_sum(b, i + 1) >= target {
        i
    } else {
        first_reaching(b, target, i + 1)
    }
}

/// The `p`-th percentile of the histogram, in µs: zero when empty, otherwise the lower
/// edge of the first bucket whose running count reaches the target rank.
pub open spec fn percentile_spec(b: Seq<u64>, p: int) -> nat {
    let total = total_count(b);
    if total == 0 {
        0
    } else {
        pow2(first_reaching(b, target_rank(total, p), 0) as nat)
    }
}

/// 64-bucket latency histogram, log2 scale.
#[derive(Clone, Copy)]
pub struct Histogram {
    buckets: [u64; 64],
}

impl View for Histogram {
    type V = Seq<u64>;

    closed spec fn view(&self) -> Seq<u64> {
        self.buckets@
    }
}

proof fn lemma_prefix_bounds(b: Seq<u64>, k: int)
    requires
        0 <= k <= b.len(),
    ensures
        0 <= prefix_sum(b, k) <= k * 0xFFFF_FFFF_FFFF_FFFF,
    decreases k,
{
    if k > 0 {
        lemma_prefix_bounds(b, k - 1);
    }
}

proof fn lemma_prefix_monotone(b: Seq<u64>, j: int, k: int)
    requires
        0 <= j <= k <= b.len(),
    ensures
        prefix_sum(b, j) <= prefix_sum(b, k),
    decreases k - j,
{
    if j < k {
        lemma_prefix_monotone(b, j, k - 1);
    }
}

proof fn lemma_prefix_update(b: Seq<u64>, idx: int, v: u64, k: int)
    requires
        0 <= idx < b.len(),
        0 <= k <= b.len(),
    ensures
        prefix_sum(b.update(idx, v), k) == prefix_sum(b, k) + (if idx < k {
            v - b[idx]
        } else {
            0
        }),
    decreases k,
{
    if k > 0 {
        lemma_prefix_update(b, idx, v, k - 1);
    }
}

proof fn lemma_prefix_zero(b: Seq<u64>, k: int)
    requires
        0 <= k <= b.len(),
        forall|i: int| 0 <= i < b.len() ==> b[i] == 0,
    ensures
        prefix_sum(b, k) == 0,
    decreases k,
{
    if k > 0 {
        lemma_prefix_zero(b, k - 1);
    }
}

proof fn lemma_first_reaching_monotone(b: Seq<u64>, t1: int, t2: int, i: int)
    requires
        t1 <= t2,
        0 <= i,
    ensures
        first_reaching(b, t1, i) <= first_reaching(b, t2, i),
    decreases b.len() - i,
{
    if i < b.len() {
        lemma_first_reaching_monotone(b, t1, t2, i + 1);
    }
}

proof fn lemma_first_reaching_bounded(b: Seq<u64>, t: int, i: int)
    requires
        0 <= i <= b.len(),
    ensures
        i <= first_reaching(b, t, i) <= b.len(),
    decreases b.len() - i,
{
    if i < b.len() {
        lemma_first_reaching_bounded(b, t, i + 1);
    }
}

fn log2_u64(n: u64) -> (r: u64)
    ensures
        r as nat == log2(n as nat),
        r < 64,
{
    let mut v = n;
    let mut r: u64 = 0;
    proof {
        vstd::arithmetic::power2::lemma2_to64();
        vstd::arithmetic::power2::lemma2_to64_rest();
    }
    while v >= 2
        invariant
            log2(n as nat) == r + log2(v as nat),
            r < 64,
            v as nat * pow2(r as nat) <= n,
            v >= 1 || n == 0,
        decreases v,
    {
        proof {
            vstd::arithmetic::power2::lemma_pow2_unfold((r + 1) as nat);
            assert((v / 2) as nat * pow2((r + 1) as nat) <= v as nat * pow2(r as nat)) by (nonlinear_arith)
                requires pow2((r + 1) as nat) == 2 * pow2(r as nat), v >= 2;
            if r + 1 >= 64 {
                vstd::arithmetic::power2::lemma2_to64_rest();
                assert(pow2((r + 1) as nat) > 0xFFFF_FFFF_FFFF_FFFF);
                assert((v / 2) as nat * pow2((r + 1) as nat) >= pow2((r + 1) as nat)) by (nonlinear_arith)
                    requires v / 2 >= 1, pow2((r + 1) as nat) > 0;
            }
        }
        v = v / 2;
        r = r + 1;
    }
    r
}

impl Histogram {
    /// An empty histogram: no latency counted in any bucket.
    pub fn new() -> (h: Self)
        ensures
            h@.len() == 64,
            forall|i: int| 0 <= i < 64 ==> h@[i] == 0,
    {
        Histogram { buckets: [0u64; 64] }
    }

    /// Counts one latency in its bucket (counts wrap at `u64::MAX`, as atomic adds do).
    pub fn record(&mut self, micros: u64)
        requires
            old(self)@.len() == 64,
        ensures
            final(self)@ == recorded(old(self)@, micros),
            final(self)@.len() == 64,
    {
        let m = if micros == 0 { 1 } else { micros };
        let l = log2_u64(m);
        let b: usize = if l > 63 { 63 } else { l as usize };
        let c = self.buckets[b];
        self.buckets[b] = c.wrapping_add(1);
    }

    /// The `p`-th percentile (see [`percentile_spec`]).
    pub fn percentile(&self, p: u64) -> (r: u64)
        requires
            self@.len() == 64,
            p <= 100,
        ensures
            r as nat == percentile_spec(self@, p as int),
    {
        let ghost b = self@;
        let mut total: u128 = 0;
        let mut i: usize = 0;
        while i < 64
            invariant
                b == self@,
                b.len() == 64,
                0 <= i <= 64,
                total as int == prefix_sum(b, i as int),
            decreases 64 - i,
        {
            proof {
                lemma_prefix_bounds(b, i as int);
            }
            total = total + self.buckets[i] as u128;
            i = i + 1;
        }
        if total == 0 {
            return 0;
        }
        proof {
            lemma_prefix_bounds(b, 64);
            assert(total * p <= 64 * 0xFFFF_FFFF_FFFF_FFFFu128 * 100) by (nonlinear_arith)
                requires total <= 64 * 0xFFFF_FFFF_FFFF_FFFFu128, p <= 100;
        }
        let t0: u128 = (total * (p as u128) + 99) / 100;
        let target: u128 = if t0 < 1 { 1 } else { t0 };
        let ghost tg = target_rank(total as int, p as int);
        assert(target as int == tg);
        assert(tg <= total as int) by (nonlinear_arith)
            requires tg == (if (total * p + 99) / 100 < 1 { 1 } else { (total * p + 99) / 100 }),
                p <= 100, total >= 1;
        let mut cumulative: u128 = 0;
        let mut k: usize = 0;
        while k < 64
            invariant
                b == self@,
                b.len() == 64,
                0 <= k <= 64,
                cumulative as int == prefix_sum(b, k as int),
                first_reaching(b, tg, 0) == first_reaching(b, tg, k as int),
                target as int == tg,
                tg <= total_count(b),
                total_count(b) == total,
                total > 0,
                cumulative < target,
                tg == target_rank(total as int, p as int),
            decreases 64 - k,
        {
            proof {
                lemma_prefix_bounds(b, k as int);
            }
            cumulative = cumulative + self.buckets[k] as u128;
            if cumulative >= target {
                proof {
                    lemma_u64_pow2_no_overflow(k as nat);
                    lemma_u64_shl_is_mul(1u64, k as u64);
                    assert(first_reaching(b, tg, k as int) == k as int);
                    assert(total_count(b) != 0);
                    assert(tg == target_rank(total_count(b), p as int));
                    assert(percentile_spec(b, p as int) == pow2(k as nat));
                    assert((1u64 << (k as u64)) == pow2(k as nat));
                }
                return 1u64 << (k as u64);
            }
            k = k + 1;
        }
        assert(false);
        1u64 << 63u64
    }

    /// Empties every bucket.
    pub fn reset(&mut self)
        requires
            old(self)@.len() == 64,
        ensures
            final(self)@.len() == 64,
            forall|i: int| 0 <= i < 64 ==> final(self)@[i] == 0,
    {
        let mut i: usize = 0;
        while i < 64
            invariant
                0 <= i <= 64,
                self@.len() == 64,
                forall|j: int| 0 <= j < i ==> self@[j] == 0,
            decreases 64 - i,
        {
            self.buckets[i] = 0;
            i = i + 1;
        }
    }
}

/// The median never exceeds the 99th percentile: for any histogram, `p50 <= p99`.
pub proof fn lemma_p50_le_p99(b: Seq<u64>)
    ensures
        percentile_spec(b, 50) <= percentile_spec(b, 99),
{
    let total = total_count(b);
    lemma_prefix_bounds(b, b.len() as int);
    if total != 0 {
        let t50 = target_rank(total, 50);
        let t99 = target_rank(total, 99);
        assert((total * 50 + 99) / 100 <= (total * 99 + 99) / 100) by (nonlinear_arith)
            requires total >= 0;
        lemma_first_reaching_monotone(b, t50, t99, 0);
        let i = first_reaching(b, t50, 0);
        let j = first_reaching(b, t99, 0);
        lemma_first_reaching_bounded(b, t50, 0);
        if i < j {
            lemma_pow2_strictly_increases(i as nat, j as nat);
        }
    }
}

/// A histogram in which no latency was counted reports zero for every percentile.
pub proof fn lemma_empty_histogram_reports_zero(b: Seq<u64>, p: int)
    requires
        forall|i: int| 0 <= i < b.len() ==> b[i] == 0,
    ensures
        percentile_spec(b, p) == 0,
{
    lemma_prefix_zero(b, b.len() as int);
}

/// The histogram in which nothing was counted: 64 buckets, all zero.
pub open spec fn empty_hist() -> Seq<u64> {
    Seq::new(64, |i: int| 0u64)
}

/// The histogram after the latencies `vs` were counted, in order, starting empty: what
/// [`MetricsEmitter::new`] (or [`MetricsEmitter::reset`]) followed by one
/// [`MetricsEmitter::record_frame`] per latency leaves.
pub open spec fn hist_of(vs: Seq<u64>) -> Seq<u64>
    decreases vs.len(),
{
    if vs.len() == 0 {
        empty_hist()
    } else {
        recorded(hist_of(vs.drop_last()), vs.last())
    }
}

/// How many of the latencies `vs` fall in bucket `k` or below.
pub open spec fn count_le(vs: Seq<u64>, k: int) -> int
    decreases vs.len(),
{
    if vs.len() == 0 {
        0
    } else {
        count_le(vs.drop_last(), k) + if bucket_of(vs.last()) <= k {
            1int
        } else {
            0int
        }
    }
}

/// The least bucket `k >= i` (below 64) with at least `t` of the latencies at or below
/// it; 64 when there is none.
pub open spec fn least_reaching(vs: Seq<u64>, t: int, i: int) -> int
    decreases 64 - i,
{
    if i >= 64 {
        64
    } else if count_le(vs, i) >= t {
        i
    } else {
        least_reaching(vs, t, i + 1)
    }
}

/// The `p`-th percentile of a sequence of latencies: zero when there is none, otherwise
/// `2^k` for the least bucket `k` holding, with the buckets below it, at least
/// `max(ceil(N · p / 100), 1)` of the `N` latencies.
pub open spec fn latency_percentile(vs: Seq<u64>, p: int) -> nat {
    if vs.len() == 0 {
        0
    } else {
        pow2(least_reaching(vs, target_rank(vs.len() as int, p), 0) as nat)
    }
}

proof fn lemma_bucket_range(micros: u64)
    ensures
        0 <= bucket_of(micros) <= 63,
{
}

proof fn lemma_count_le_bounds(vs: Seq<u64>, k: int)
    ensures
        0 <= count_le(vs, k) <= vs.len(),
        k >= 63 ==> count_le(vs, k) == vs.len(),
    decreases vs.len(),
{
    if vs.len() > 0 {
        lemma_count_le_bounds(vs.drop_last(), k);
        lemma_bucket_range(vs.last());
    }
}

/// The running counts of `hist_of(vs)` are the counts of latencies per bucket or below.
proof fn lemma_hist_of_counts(vs: Seq<u64>)
    requires
        vs.len() <= u64::MAX,
    ensures
        hist_of(vs).len() == 64,
        forall|k: int| 0 <= k < 64 ==> #[trigger] prefix_sum(hist_of(vs), k + 1) == count_le(vs, k),
        prefix_sum(hist_of(vs), 64) == vs.len(),
    decreases vs.len(),
{
    if vs.len() == 0 {
        lemma_prefix_zero(empty_hist(), 64);
        assert forall|k: int| 0 <= k < 64 implies #[trigger] prefix_sum(hist_of(vs), k + 1)
            == count_le(vs, k) by {
            lemma_prefix_zero(empty_hist(), k + 1);
        }
    } else {
        let rest = vs.drop_last();
        let h = hist_of(rest);
        let b = bucket_of(vs.last());
        lemma_hist_of_counts(rest);
        lemma_bucket_range(vs.last());
        lemma_count_le_bounds(rest, 63);
        // The bucket that grows holds no more than all the latencies before, so it does not wrap.
        lemma_prefix_bounds(h, b);
        lemma_prefix_monotone(h, b + 1, 64);
        assert(h[b] < u64::MAX);
        assert forall|k: int| 0 <= k < 64 implies #[trigger] prefix_sum(hist_of(vs), k + 1)
            == count_le(vs, k) by {
            lemma_prefix_update(h, b, (h[b] + 1) as u64, k + 1);
        }
        lemma_prefix_update(h, b, (h[b] + 1) as u64, 64);
        lemma_count_le_bounds(vs, 63);
        assert(prefix_sum(hist_of(vs), 64) == count_le(vs, 63));
    }
}

proof fn lemma_first_is_least(vs: Seq<u64>, t: int, i: int)
    requires
        0 <= i <= 64,
        hist_of(vs).len() == 64,
        forall|k: int| 0 <= k < 64 ==> #[trigger] prefix_sum(hist_of(vs), k + 1) == count_le(vs, k),
    ensures
        first_reaching(hist_of(vs), t, i) == least_reaching(vs, t, i),
    decreases 64 - i,
{
    if i < 64 {
        assert(prefix_sum(hist_of(vs), i + 1) == count_le(vs, i));
        lemma_first_is_least(vs, t, i + 1);
    }
}

proof fn lemma_least_reaching_is_least(vs: Seq<u64>, t: int, i: int)
    requires
        0 <= i <= 64,
        forall|j: int| 0 <= j < i ==> #[trigger] count_le(vs, j) < t,
    ensures
        i <= least_reaching(vs, t, i) <= 64,
        least_reaching(vs, t, i) < 64 ==> count_le(vs, least_reaching(vs, t, i)) >= t,
        forall|j: int| 0 <= j < least_reaching(vs, t, i) ==> #[trigger] count_le(vs, j) < t,
    decreases 64 - i,
{
    if i < 64 && count_le(vs, i) < t {
        lemma_least_reaching_is_least(vs, t, i + 1);
    }
}

/// Law: the percentiles of an emitter are those of the latencies it was given. For any
/// latencies `vs` recorded in order from an empty histogram, the histogram reports for the
/// `p`-th percentile exactly [`latency_percentile`]`(vs, p)`: zero for none, otherwise
/// `2^k` for the least bucket `k` reaching rank `max(ceil(N · p / 100), 1)`, a bucket that
/// exists whenever `p <= 100`.
pub proof fn lemma_percentile_of_recorded_latencies(vs: Seq<u64>, p: int)
    requires
        vs.len() <= u64::MAX,
    ensures
        hist_of(vs).len() == 64,
        percentile_spec(hist_of(vs), p) == latency_percentile(vs, p),
        vs.len() > 0 && 0 <= p <= 100 ==> ({
            let t = target_rank(vs.len() as int, p);
            let k = least_reaching(vs, t, 0);
            &&& 0 <= k < 64
            &&& count_le(vs, k) >= t
            &&& forall|j: int| 0 <= j < k ==> #[trigger] count_le(vs, j) < t
        }),
{
    lemma_hist_of_counts(vs);
    let n = vs.len() as int;
    let t = target_rank(n, p);
    lemma_first_is_least(vs, t, 0);
    lemma_least_reaching_is_least(vs, t, 0);
    if n > 0 && 0 <= p <= 100 {
        assert(t <= n) by (nonlinear_arith)
            requires t == (if (n * p + 99) / 100 < 1 { 1 } else { (n * p + 99) / 100 }), 0 <= p <= 100, n >= 1;
        lemma_count_le_bounds(vs, 63);
    }
}

/// What a [`MetricsEmitter`] holds, as plain values.
pub struct MetricsView {
    pub name: Seq<char>,
    pub frames: u64,
    pub drops: u64,
    pub beats: u64,
    pub hops: u64,
    pub hb_gap_us: u64,
    pub buckets: Seq<u64>,
}

/// Frames per second over `elapsed_ms`, integer division, zero when no time has passed.
pub open spec fn fps_spec(frames: u64, elapsed_ms: u64) -> nat {
    if elapsed_ms == 0 {
        0
    } else {
        (frames * 1000) as nat / elapsed_ms as nat
    }
}

/// Beats per hundred hops, zero when there were no hops.
pub open spec fn beat_density_spec(beats: u64, hops: u64) -> nat {
    if hops == 0 {
        0
    } else {
        (beats * 100) as nat / hops as nat
    }
}

/// The one-line JSON snapshot of `v`, taken `elapsed_ms` after the emitter was created.
pub open spec fn snapshot_spec(v: MetricsView, elapsed_ms: u64) -> Seq<char> {
    "{\"component\":\""@ + v.name + "\",\"elapsed_ms\":"@ + dec(elapsed_ms as nat)
        + ",\"frames\":"@ + dec(v.frames as nat) + ",\"drops\":"@ + dec(v.drops as nat)
        + ",\"fps\":"@ + dec(fps_spec(v.frames, elapsed_ms)) + ",\"p50_us\":"@ + dec(
        percentile_spec(v.buckets, 50),
    ) + ",\"p99_us\":"@ + dec(percentile_spec(v.buckets, 99)) + ",\"beat_density_pct\":"@
        + dec(beat_density_spec(v.beats, v.hops)) + ",\"hops\":"@ + dec(v.hops as nat)
        + ",\"hb_gap_ms\":"@ + dec((v.hb_gap_us / 1000) as nat) + "}"@
}

/// Collects frame, drop, beat and hop counts plus a latency histogram for one component.
///
/// Counters wrap at `u64::MAX`, as the atomic adds of a shared emitter do.
pub struct MetricsEmitter {
    name: &'static str,
    epoch: std::time::Instant,
    frame_count: u64,
    drop_count: u64,
    beat_count: u64,
    hop_count: u64,
    histogram: Histogram,
    last_hb_gap_us: u64,
}

impl View for MetricsEmitter {
    type V = MetricsView;

    closed spec fn view(&self) -> MetricsView {
        MetricsView {
            name: self.name@,
            frames: self.frame_count,
            drops: self.drop_count,
            beats: self.beat_count,
            hops: self.hop_count,
            hb_gap_us: self.last_hb_gap_us,
            buckets: self.histogram@,
        }
    }
}

impl Clone for MetricsEmitter {
    /// A copy of every count, of the histogram, of the name and of the creation time.
    fn clone(&self) -> (c: Self)
        ensures
            c@ == self@,
            c.wf() == self.wf(),
    {
        MetricsEmitter {
            name: self.name,
            epoch: self.epoch,
            frame_count: self.frame_count,
            drop_count: self.drop_count,
            beat_count: self.beat_count,
            hop_count: self.hop_count,
            histogram: self.histogram,
            last_hb_gap_us: self.last_hb_gap_us,
        }
    }
}

/// Adding one to a counter, wrapping at `u64::MAX`.
pub open spec fn bump(c: u64) -> u64 {
    if c == u64::MAX { 0 } else { (c + 1) as u64 }
}

/// The histogram after one latency of `micros` is counted.
pub open spec fn recorded(b: Seq<u64>, micros: u64) -> Seq<u64> {
    b.update(bucket_of(micros), bump(b[bucket_of(micros)]))
}

impl MetricsEmitter {
    /// The well-formedness of an emitter: 64 buckets.
    pub closed spec fn wf(&self) -> bool {
        self.histogram@.len() == 64
    }

    /// A fresh emitter with every count at zero.
    pub fn new(name: &'static str) -> (m: Self)
        ensures
            m.wf(),
            m@.name == name@,
            m@.frames == 0,
            m@.drops == 0,
            m@.beats == 0,
            m@.hops == 0,
            m@.hb_gap_us == 0,
            m@.buckets.len() == 64,
            forall|i: int| 0 <= i < 64 ==> m@.buckets[i] == 0,
            m@.buckets == empty_hist(),
    {
        let histogram = Histogram::new();
        assert(histogram@ =~= empty_hist());
        MetricsEmitter {
            name,
            epoch: instant_now(),
            frame_count: 0,
            drop_count: 0,
            beat_count: 0,
            hop_count: 0,
            histogram,
            last_hb_gap_us: 0,
        }
    }

    /// The component name this emitter was created with.
    pub fn name(&self) -> (n: &'static str)
        ensures
            n@ == self@.name,
    {
        self.name
    }

    /// Records one sent frame and its latency in µs.
    pub fn record_frame(&mut self, latency_us: u64)
        requires
            old(self).wf(),
        ensures
            final(self).wf(),
            final(self)@ == (MetricsView {
                frames: bump(old(self)@.frames),
                buckets: recorded(old(self)@.buckets, latency_us),
                ..old(self)@
            }),
    {
        self.frame_count = self.frame_count.wrapping_add(1);
        self.histogram.record(latency_us);
    }

    /// Records a dropped frame.
    pub fn record_drop(&mut self)
        requires
            old(self).wf(),
        ensures
            final(self).wf(),
            final(self)@ == (MetricsView { drops: bump(old(self)@.drops), ..old(self)@ }),
    {
        self.drop_count = self.drop_count.wrapping_add(1);
    }

    /// Records a detected beat.
    pub fn record_beat(&mut self)
        requires
            old(self).wf(),
        ensures
            final(self).wf(),
            final(self)@ == (MetricsView { beats: bump(old(self)@.beats), ..old(self)@ }),
    {
        self.beat_count = self.beat_count.wrapping_add(1);
    }

    /// Records one processed audio hop.
    pub fn record_hop(&mut self)
        requires
            old(self).wf(),
        ensures
            final(self).wf(),
            final(self)@ == (MetricsView { hops: bump(old(self)@.hops), ..old(self)@ }),
    {
        self.hop_count = self.hop_count.wrapping_add(1);
    }

    /// Replaces the last observed heartbeat gap (µs).
    pub fn record_heartbeat_gap(&mut self, gap_us: u64)
        requires
            old(self).wf(),
        ensures
            final(self).wf(),
            final(self)@ == (MetricsView { hb_gap_us: gap_us, ..old(self)@ }),
    {
        self.last_hb_gap_us = gap_us;
    }

    /// The JSON snapshot for a given time since creation (see [`snapshot_spec`]).
    pub fn snapshot_json_at(&self, elapsed_ms: u64) -> (s: String)
        requires
            self.wf(),
            self@.frames * 1000 <= u64::MAX,
            self@.beats * 100 <= u64::MAX,
        ensures
            s@ == snapshot_spec(self@, elapsed_ms),
    {
        let frames = self.frame_count;
        let beats = self.beat_count;
        let hops = self.hop_count;
        let fps: u64 = if elapsed_ms == 0 { 0 } else { (frames * 1000) / elapsed_ms };
        let density: u64 = if hops == 0 { 0 } else { (beats * 100) / hops };
        let p50 = self.histogram.percentile(50);
        let p99 = self.histogram.percentile(99);
        let mut out = String::new();
        push_str(&mut out, "{\"component\":\"");
        push_str(&mut out, self.name);
        push_str(&mut out, "\",\"elapsed_ms\":");
        push_u64(&mut out, elapsed_ms);
        push_str(&mut out, ",\"frames\":");
        push_u64(&mut out, frames);
        push_str(&mut out, ",\"drops\":");
        push_u64(&mut out, self.drop_count);
        push_str(&mut out, ",\"fps\":");
        push_u64(&mut out, fps);
        push_str(&mut out, ",\"p50_us\":");
        push_u64(&mut out, p50);
        push_str(&mut out, ",\"p99_us\":");
        push_u64(&mut out, p99);
        push_str(&mut out, ",\"beat_density_pct\":");
        push_u64(&mut out, density);
        push_str(&mut out, ",\"hops\":");
        push_u64(&mut out, hops);
        push_str(&mut out, ",\"hb_gap_ms\":");
        push_u64(&mut out, self.last_hb_gap_us / 1000);
        push_str(&mut out, "}");
        out
    }

    /// The JSON snapshot now: reads the clock, then renders with [`Self::snapshot_json_at`].
    pub fn snapshot_json(&self) -> (s: String)
        requires
            self.wf(),
            self@.frames * 1000 <= u64::MAX,
            self@.beats * 100 <= u64::MAX,
        ensures
            exists|e: u64| s@ == snapshot_spec(self@, e),
    {
        let e = elapsed_ms(&self.epoch);
        self.snapshot_json_at(e)
    }

    /// Sets every count, the heartbeat gap and the histogram back to zero. The name and the
    /// creation time are kept.
    pub fn reset(&mut self)
        requires
            old(self).wf(),
        ensures
            final(self).wf(),
            final(self)@.name == old(self)@.name,
            final(self)@.frames == 0,
            final(self)@.drops == 0,
            final(self)@.beats == 0,
            final(self)@.hops == 0,
            final(self)@.hb_gap_us == 0,
            final(self)@.buckets.len() == 64,
            forall|i: int| 0 <= i < 64 ==> final(self)@.buckets[i] == 0,
            final(self)@.buckets == empty_hist(),
    {
        self.frame_count = 0;
        self.drop_count = 0;
        self.beat_count = 0;
        self.hop_count = 0;
        self.last_hb_gap_us = 0;
        self.histogram.reset();
        assert(self.histogram@ =~= empty_hist());
    }

    /// Frames recorded since the last reset.
    pub fn frame_count(&self) -> (n: u64)
        ensures
            n == self@.frames,
    {
        self.frame_count
    }

    /// Frames dropped since the last reset.
    pub fn drop_count(&self) -> (n: u64)
        ensures
            n == self@.drops,
    {
        self.drop_count
    }

    /// Beats recorded since the last reset.
    pub fn beat_count(&self) -> (n: u64)
        ensures
            n == self@.beats,
    {
        self.beat_count
    }

    /// Median latency (µs), see [`percentile_spec`].
    pub fn p50_us(&self) -> (r: u64)
        requires
            self.wf(),
        ensures
            r == percentile_spec(self@.buckets, 50),
    {
        self.histogram.percentile(50)
    }

    /// 99th-percentile latency (µs), see [`percentile_spec`].
    pub fn p99_us(&self) -> (r: u64)
        requires
            self.wf(),
        ensures
            r == percentile_spec(self@.buckets, 99),
    {
        self.histogram.percentile(99)
    }
}

} // verus!
