//! Streaming playback paced by absolute instants, and the pacing model that shows why.
//!
//! Sleeping the *interval* between frames lets every scheduler delay and every send cost add
//! up over a show. Sleeping *until* `epoch + timestamp` corrects them at every frame; a frame
//! that is late by a whole period has been overtaken and is dropped, never pushing its delay
//! onto the next one.
//!
//! The per-frame decision lives here as a small state machine ([`StreamPacer`]); whoever
//! reads the show, sleeps and sends performs its actions. [`simulate_drift_ms`] runs both
//! policies over a model of time, so that the drift they accumulate can be stated exactly.

use vstd::prelude::*;

verus! {

/// How frames are spaced.
#[derive(Clone, Copy, Debug, PartialEq, Eq, Structural)]
pub enum Pacing {
    /// Sleep until `epoch_ms + timestamp_ms` on the shared clock. A frame overtaken by a
    /// whole period is dropped, never delaying the next.
    Absolute { epoch_ms: u64 },
    /// No sleeping. For the bench and integrity checks.
    Max,
}

/// Outcome of an unauthenticated streaming playback: the bytes read were sent, nothing more.
#[derive(Clone, Copy, Debug, PartialEq, Eq, Structural)]
pub struct StreamReport {
    pub frames_played: u64,
    pub frames_failed: u64,
    pub duration_ms: u64,
    pub pixel_count: u32,
    /// Frames that were already due when their turn came.
    pub frames_late: u64,
    /// Worst lateness observed, in ms.
    pub worst_late_ms: u64,
}

/// Summary of one playback of a materialised show.
#[derive(Clone, Copy, Debug, PartialEq, Eq, Structural)]
pub struct PlaybackReport {
    pub frames_played: u64,
    pub frames_failed: u64,
    pub duration_ms: u64,
    pub pixel_count: u32,
    pub manifest_hash: u64,
}

/// How many of `outcomes` are `b`.
pub open spec fn count_of(outcomes: Seq<bool>, b: bool) -> nat
    decreases outcomes.len(),
{
    if outcomes.len() == 0 {
        0
    } else {
        count_of(outcomes.drop_last(), b) + if outcomes.last() == b {
            1nat
        } else {
            0nat
        }
    }
}

/// The time a show spans: its last timestamp minus its first (zero when that would be
/// negative, or when there is no frame).
pub open spec fn show_span_ms(timestamps: Seq<u64>) -> u64 {
    if timestamps.len() == 0 || timestamps.last() < timestamps[0] {
        0
    } else {
        (timestamps.last() - timestamps[0]) as u64
    }
}

/// The report of a playback of a materialised show: `outcomes[i]` tells whether the frame
/// stamped `timestamps[i]` was sent. Failed sends are counted and playback goes on.
pub fn playback_report(
    timestamps: &Vec<u64>,
    outcomes: &Vec<bool>,
    pixel_count: u32,
    manifest_hash: u64,
) -> (r: PlaybackReport)
    requires
        timestamps@.len() == outcomes@.len(),
    ensures
        r.frames_played == count_of(outcomes@, true),
        r.frames_failed == count_of(outcomes@, false),
        r.duration_ms == show_span_ms(timestamps@),
        r.pixel_count == pixel_count,
        r.manifest_hash == manifest_hash,
{
    let mut played: u64 = 0;
    let mut failed: u64 = 0;
    let mut i: usize = 0;
    while i < outcomes.len()
        invariant
            i <= outcomes@.len(),
            played == count_of(outcomes@.take(i as int), true),
            failed == count_of(outcomes@.take(i as int), false),
            played + failed == i,
        decreases outcomes@.len() - i,
    {
        assert(outcomes@.take(i + 1).drop_last() =~= outcomes@.take(i as int));
        if outcomes[i] {
            played = played + 1;
        } else {
            failed = failed + 1;
        }
        i = i + 1;
    }
    assert(outcomes@.take(outcomes@.len() as int) =~= outcomes@);
    let n = timestamps.len();
    let duration_ms: u64 = if n == 0 {
        0
    } else {
        timestamps[n - 1].saturating_sub(timestamps[0])
    };
    PlaybackReport { frames_played: played, frames_failed: failed, duration_ms, pixel_count, manifest_hash }
}

/// What to do with the frame at hand.
#[derive(Clone, Copy, Debug, PartialEq, Eq, Structural)]
pub enum PaceAction {
    /// Send it now.
    Send,
    /// Sleep this many ms, then send it.
    SleepThenSend(u64),
    /// It was overtaken: drop it.
    Skip,
}

/// The pacing state carried from frame to frame.
#[derive(Clone, Copy, Debug, PartialEq, Eq, Structural)]
pub struct StreamPacer {
    pub prev_ts: Option<u64>,
    /// The longest gap between consecutive timestamps seen so far: a frame later than this
    /// has been overtaken.
    pub period_ms: u64,
    pub played: u64,
    pub failed: u64,
    pub frames_late: u64,
    pub worst_late_ms: u64,
}

/// The period after a frame at `ts`: the longest gap seen so far.
pub open spec fn next_period(prev_ts: Option<u64>, period_ms: u64, ts: u64) -> u64 {
    match prev_ts {
        Some(p) => {
            let gap = if ts >= p { (ts - p) as u64 } else { 0u64 };
            if gap > period_ms { gap } else { period_ms }
        },
        None => period_ms,
    }
}

/// `a + b`, saturating at `u64::MAX`.
pub open spec fn sat_add(a: u64, b: u64) -> u64 {
    if a + b > u64::MAX { u64::MAX } else { (a + b) as u64 }
}

/// What to do with a frame stamped `ts` when the clock reads `now`.
pub open spec fn action_spec(pacing: Pacing, period_ms: u64, ts: u64, now: u64) -> PaceAction {
    match pacing {
        Pacing::Max => PaceAction::Send,
        Pacing::Absolute { epoch_ms } => {
            let target = sat_add(epoch_ms, ts);
            if now < target {
                PaceAction::SleepThenSend((target - now) as u64)
            } else if now > target && period_ms > 0 && now - target >= period_ms {
                PaceAction::Skip
            } else {
                PaceAction::Send
            }
        },
    }
}

/// Whether a frame stamped `ts` is late when the clock reads `now`.
pub open spec fn is_late(pacing: Pacing, ts: u64, now: u64) -> bool {
    match pacing {
        Pacing::Max => false,
        Pacing::Absolute { epoch_ms } => now > sat_add(epoch_ms, ts),
    }
}

/// The lateness of a late frame.
pub open spec fn lateness(pacing: Pacing, ts: u64, now: u64) -> u64 {
    match pacing {
        Pacing::Max => 0,
        Pacing::Absolute { epoch_ms } => (now - sat_add(epoch_ms, ts)) as u64,
    }
}

impl StreamPacer {
    /// A pacer before the first frame.
    pub fn new() -> (p: Self)
        ensures
            p == (StreamPacer {
                prev_ts: None,
                period_ms: 0,
                played: 0,
                failed: 0,
                frames_late: 0,
                worst_late_ms: 0,
            }),
    {
        StreamPacer {
            prev_ts: None,
            period_ms: 0,
            played: 0,
            failed: 0,
            frames_late: 0,
            worst_late_ms: 0,
        }
    }

    /// Decides what to do with the next frame, stamped `ts`, when the clock reads `now`.
    /// The target of every frame is `epoch + ts`: a delay is never carried to the next one.
    pub fn on_frame(&mut self, pacing: Pacing, ts: u64, now: u64) -> (a: PaceAction)
        requires
            old(self).frames_late < u64::MAX,
        ensures
            final(self).prev_ts == Some(ts),
            final(self).period_ms == next_period(old(self).prev_ts, old(self).period_ms, ts),
            a == action_spec(pacing, final(self).period_ms, ts, now),
            final(self).frames_late == old(self).frames_late + if is_late(pacing, ts, now) {
                1int
            } else {
                0int
            },
            final(self).worst_late_ms == if is_late(pacing, ts, now) && lateness(pacing, ts, now)
                > old(self).worst_late_ms {
                lateness(pacing, ts, now)
            } else {
                old(self).worst_late_ms
            },
            final(self).played == old(self).played,
            final(self).failed == old(self).failed,
    {
        if let Some(p) = self.prev_ts {
            let gap = if ts >= p {
                ts - p
            } else {
                0
            };
            if gap > self.period_ms {
                self.period_ms = gap;
            }
        }
        self.prev_ts = Some(ts);
        match pacing {
            Pacing::Max => PaceAction::Send,
            Pacing::Absolute { epoch_ms } => {
                let target = epoch_ms.saturating_add(ts);
                if now < target {
                    PaceAction::SleepThenSend(target - now)
                } else if now > target {
                    let late = now - target;
                    if late > self.worst_late_ms {
                        self.worst_late_ms = late;
                    }
                    self.frames_late = self.frames_late + 1;
                    if self.period_ms > 0 && late >= self.period_ms {
                        PaceAction::Skip
                    } else {
                        PaceAction::Send
                    }
                } else {
                    PaceAction::Send
                }
            },
        }
    }

    /// Records the outcome of a send. A failed send is counted and the show goes on.
    pub fn on_sent(&mut self, ok: bool)
        requires
            old(self).played < u64::MAX,
            old(self).failed < u64::MAX,
        ensures
            *final(self) == (if ok {
                StreamPacer { played: (old(self).played + 1) as u64, ..*old(self) }
            } else {
                StreamPacer { failed: (old(self).failed + 1) as u64, ..*old(self) }
            }),
    {
        if ok {
            self.played = self.played + 1;
        } else {
            self.failed = self.failed + 1;
        }
    }

    /// The report of a playback that lasted `duration_ms` over `pixel_count` pixels.
    pub fn report(&self, duration_ms: u64, pixel_count: u32) -> (r: StreamReport)
        ensures
            r == (StreamReport {
                frames_played: self.played,
                frames_failed: self.failed,
                duration_ms,
                pixel_count,
                frames_late: self.frames_late,
                worst_late_ms: self.worst_late_ms,
            }),
    {
        StreamReport {
            frames_played: self.played,
            frames_failed: self.failed,
            duration_ms,
            pixel_count,
            frames_late: self.frames_late,
            worst_late_ms: self.worst_late_ms,
        }
    }
}

/// The two policies, as pure functions over a model of time.
#[derive(Clone, Copy, Debug, PartialEq, Eq, Structural)]
pub enum PacingPolicy {
    /// Sleep the interval, from wherever the clock is.
    Incremental,
    /// Sleep until `epoch + timestamp`.
    Absolute,
}

/// The model clock once frame `i` has been sent. Before frame 0 it reads 0.
pub open spec fn after_send(policy: PacingPolicy, i: nat, p: int, c: int, s: int) -> int
    decreases i,
{
    let b = if i == 0 { 0 } else { after_send(policy, (i - 1) as nat, p, c, s) };
    let woke = match policy {
        PacingPolicy::Incremental => if i > 0 { b + p + s } else { b },
        PacingPolicy::Absolute => if b < i * p { i * p + s } else { b },
    };
    woke + c
}

/// The model clock when frame `i` is about to be paced.
pub open spec fn before_frame(policy: PacingPolicy, i: nat, p: int, c: int, s: int) -> int {
    if i == 0 { 0 } else { after_send(policy, (i - 1) as nat, p, c, s) }
}

/// Deviation of the last of `n` frames from its ideal send time, in ms (late is positive).
pub open spec fn drift_spec(policy: PacingPolicy, n: nat, p: int, c: int, s: int) -> int {
    if n == 0 {
        0
    } else {
        after_send(policy, (n - 1) as nat, p, c, s) - ((n - 1) * p + c)
    }
}

/// The model clock never runs ahead of `(i + 1) × (p + c + s)` once frame `i` is sent.
proof fn lemma_after_send_bounded(policy: PacingPolicy, i: nat, p: int, c: int, s: int)
    requires
        p >= 0,
        c >= 0,
        s >= 0,
    ensures
        0 <= after_send(policy, i, p, c, s) <= (i + 1) * (p + c + s),
        i * p <= (i + 1) * (p + c + s),
    decreases i,
{
    assert((i + 1) * (p + c + s) == i * (p + c + s) + (p + c + s)) by (nonlinear_arith);
    assert(i * p <= i * (p + c + s)) by (nonlinear_arith)
        requires
            c + s >= 0,
    ;
    assert(i * p >= 0) by (nonlinear_arith)
        requires
            p >= 0,
    ;
    if i > 0 {
        lemma_after_send_bounded(policy, (i - 1) as nat, p, c, s);
        assert(((i - 1) as nat + 1) * (p + c + s) == i * (p + c + s));
    }
}

/// Simulates `frames` frames and returns the deviation of the last one from its ideal send
/// time, in ms (late is positive). Each send costs `send_cost_ms` and the scheduler wakes
/// `sched_slop_ms` late: inputs of the model, so the result speaks of the policy, not of
/// hardware. The model's times must fit an `i64`.
pub fn simulate_drift_ms(
    policy: PacingPolicy,
    frames: u64,
    period_ms: u64,
    send_cost_ms: u64,
    sched_slop_ms: u64,
) -> (d: i64)
    requires
        frames * (period_ms + send_cost_ms + sched_slop_ms) <= i64::MAX,
    ensures
        d == drift_spec(policy, frames as nat, period_ms as int, send_cost_ms as int, sched_slop_ms as int),
{
    let ghost p = period_ms as int;
    let ghost c = send_cost_ms as int;
    let ghost s = sched_slop_ms as int;
    if frames == 0 {
        return 0;
    }
    let mut now: u64 = 0;
    let mut i: u64 = 0;
    while i < frames
        invariant
            p == period_ms,
            c == send_cost_ms,
            s == sched_slop_ms,
            frames * (p + c + s) <= i64::MAX,
            i < frames,
            now == before_frame(policy, i as nat, p, c, s),
        decreases frames - i,
    {
        proof {
            lemma_after_send_bounded(policy, i as nat, p, c, s);
            if i > 0 {
                lemma_after_send_bounded(policy, (i - 1) as nat, p, c, s);
            }
            assert((i + 1) * (p + c + s) <= frames * (p + c + s)) by (nonlinear_arith)
                requires
                    i + 1 <= frames,
                    p + c + s >= 0,
            ;
            assert(i * p + c <= (i + 1) * (p + c + s)) by (nonlinear_arith)
                requires
                    p >= 0,
                    c >= 0,
                    s >= 0,
            ;
        }
        let ideal = i * period_ms;
        match policy {
            PacingPolicy::Incremental => {
                if i > 0 {
                    now = now + period_ms + sched_slop_ms;
                }
            },
            PacingPolicy::Absolute => {
                let target = ideal;
                now = if now < target {
                    target + sched_slop_ms
                } else {
                    now
                };
            },
        }
        now = now + send_cost_ms;
        assert(now == after_send(policy, i as nat, p, c, s));
        if i + 1 == frames {
            assert(now <= i64::MAX && ideal + send_cost_ms <= i64::MAX);
            return now as i64 - (ideal + send_cost_ms) as i64;
        }
        i = i + 1;
    }
    0
}

/// Law: interval pacing accumulates. The last of `n` frames is late by `(n − 1) × (send cost
/// + scheduler slop)`: linear in the length of the show.
pub proof fn lemma_incremental_drift_is_linear(n: nat, p: int, c: int, s: int)
    requires
        n >= 1,
    ensures
        drift_spec(PacingPolicy::Incremental, n, p, c, s) == (n - 1) * (c + s),
    decreases n,
{
    lemma_incremental_clock(p, c, s, (n - 1) as nat);
    assert((n - 1) * (p + s) + n * c - ((n - 1) * p + c) == (n - 1) * (c + s))
        by (nonlinear_arith);
}

proof fn lemma_incremental_clock(p: int, c: int, s: int, i: nat)
    ensures
        after_send(PacingPolicy::Incremental, i, p, c, s) == i * (p + s) + (i + 1) * c,
    decreases i,
{
    if i > 0 {
        lemma_incremental_clock(p, c, s, (i - 1) as nat);
        assert(i * (p + s) == (i - 1) * (p + s) + (p + s)) by (nonlinear_arith);
        assert((i + 1) * c == i * c + c) by (nonlinear_arith);
        assert(((i - 1) as nat + 1) * c == i * c);
    } else {
        assert(i * (p + s) == 0 && (i + 1) * c == c) by (nonlinear_arith)
            requires
                i == 0,
        ;
    }
}

/// Law: absolute pacing does not accumulate. Whenever a send costs no more than a period,
/// every frame goes out between its ideal time and one scheduler slop after it, whatever
/// the length of the show.
pub proof fn lemma_absolute_drift_is_bounded(n: nat, p: int, c: int, s: int)
    requires
        0 <= c <= p,
        s >= 0,
    ensures
        0 <= drift_spec(PacingPolicy::Absolute, n, p, c, s) <= s,
{
    if n > 0 {
        lemma_absolute_deviation((n - 1) as nat, p, c, s);
    }
}

proof fn lemma_absolute_deviation(i: nat, p: int, c: int, s: int)
    requires
        0 <= c <= p,
        s >= 0,
    ensures
        0 <= after_send(PacingPolicy::Absolute, i, p, c, s) - (i * p + c) <= s,
    decreases i,
{
    if i > 0 {
        lemma_absolute_deviation((i - 1) as nat, p, c, s);
        assert(i * p == (i - 1) * p + p) by (nonlinear_arith);
    }
}

/// Law: when each send leaves room for the scheduler's slop within a period, the absolute
/// policy settles at exactly one slop of lateness from the second frame on: the deviation
/// does not depend on the length of the show.
pub proof fn lemma_absolute_drift_is_constant(n: nat, p: int, c: int, s: int)
    requires
        n >= 2,
        c >= 0,
        s >= 0,
        c + s < p,
    ensures
        drift_spec(PacingPolicy::Absolute, n, p, c, s) == s,
{
    lemma_absolute_settles((n - 1) as nat, p, c, s);
}

proof fn lemma_absolute_settles(i: nat, p: int, c: int, s: int)
    requires
        i >= 1,
        c >= 0,
        s >= 0,
        c + s < p,
    ensures
        after_send(PacingPolicy::Absolute, i, p, c, s) == i * p + s + c,
    decreases i,
{
    assert(i * p == (i - 1) * p + p) by (nonlinear_arith);
    if i > 1 {
        lemma_absolute_settles((i - 1) as nat, p, c, s);
    } else {
        assert(0 * p == 0);
        assert(1 * p == p);
        assert(after_send(PacingPolicy::Absolute, 0, p, c, s) == c);
    }
}

/// Law: with neither send cost nor scheduler slop, both policies send every frame on time.
pub proof fn lemma_perfect_scheduler_policies_agree(n: nat, p: int)
    requires
        p >= 0,
    ensures
        drift_spec(PacingPolicy::Incremental, n, p, 0, 0) == 0,
        drift_spec(PacingPolicy::Absolute, n, p, 0, 0) == 0,
{
    if n >= 1 {
        lemma_incremental_drift_is_linear(n, p, 0, 0);
        assert((n - 1) * (0int + 0int) == 0);
    }
    lemma_absolute_drift_is_bounded(n, p, 0, 0);
}

} // verus!
