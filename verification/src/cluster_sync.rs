//! Health of the segments of a synchronised cluster, and the failover rules over it.
//!
//! A segment is `Degraded` after 3 consecutive failures and `Failed` after 10, and a failed
//! segment is left out of sends until it is rejoined. One success makes it healthy again.
//! New segments can join while the show runs. Sending itself belongs to whoever holds the
//! segments' outputs: it asks [`SegmentTable::is_active`] before each send and reports the
//! outcome with [`SegmentTable::record`].

use vstd::prelude::*;

verus! {

/// Consecutive failures from which a segment is degraded.
pub const DEGRADED_AFTER: u32 = 3;

/// Consecutive failures from which a segment is failed and left out of sends.
pub const FAILED_AFTER: u32 = 10;

/// The state of one segment.
#[derive(Clone, Copy, Debug, PartialEq, Eq, Structural)]
pub enum SegmentState {
    /// Sending successfully.
    Healthy,
    /// 3 to 9 consecutive failures.
    Degraded,
    /// 10 or more consecutive failures: left out of sends until rejoined.
    Failed,
}

/// The state that a run of consecutive failures puts a segment in.
pub open spec fn state_for(consecutive_fails: int) -> SegmentState {
    if consecutive_fails >= FAILED_AFTER {
        SegmentState::Failed
    } else if consecutive_fails >= DEGRADED_AFTER {
        SegmentState::Degraded
    } else {
        SegmentState::Healthy
    }
}

/// Health record of one segment.
#[derive(Debug)]
pub struct SegmentHealth {
    pub state: SegmentState,
    pub consecutive_fails: u32,
    pub frames_sent: u64,
    pub last_fail_reason: Option<String>,
}

/// What a [`SegmentHealth`] records, the failure reason taken by its characters.
pub struct HealthView {
    pub state: SegmentState,
    pub consecutive_fails: u32,
    pub frames_sent: u64,
    pub last_fail_reason: Option<Seq<char>>,
}

impl View for SegmentHealth {
    type V = HealthView;

    open spec fn view(&self) -> HealthView {
        HealthView {
            state: self.state,
            consecutive_fails: self.consecutive_fails,
            frames_sent: self.frames_sent,
            last_fail_reason: match self.last_fail_reason {
                Some(r) => Some(r@),
                None => None,
            },
        }
    }
}

/// A segment that has just joined: healthy, nothing sent, nothing failed.
pub open spec fn fresh_health() -> HealthView {
    HealthView {
        state: SegmentState::Healthy,
        consecutive_fails: 0,
        frames_sent: 0,
        last_fail_reason: None,
    }
}

impl SegmentHealth {
    /// A healthy segment with no history.
    pub fn new() -> (h: Self)
        ensures
            h@ == fresh_health(),
    {
        SegmentHealth {
            state: SegmentState::Healthy,
            consecutive_fails: 0,
            frames_sent: 0,
            last_fail_reason: None,
        }
    }

    /// A send succeeded: the failure run ends and the segment is healthy.
    pub fn record_success(&mut self)
        requires
            old(self).frames_sent < u64::MAX,
        ensures
            final(self)@ == (HealthView {
                state: SegmentState::Healthy,
                consecutive_fails: 0,
                frames_sent: (old(self).frames_sent + 1) as u64,
                ..old(self)@
            }),
    {
        self.consecutive_fails = 0;
        self.frames_sent = self.frames_sent + 1;
        self.state = SegmentState::Healthy;
    }

    /// A send failed: the failure run grows and the state follows it.
    pub fn record_failure(&mut self, reason: &str)
        requires
            old(self).consecutive_fails < u32::MAX,
        ensures
            final(self)@ == (HealthView {
                state: state_for(old(self).consecutive_fails + 1),
                consecutive_fails: (old(self).consecutive_fails + 1) as u32,
                last_fail_reason: Some(reason@),
                ..old(self)@
            }),
    {
        self.consecutive_fails = self.consecutive_fails + 1;
        self.last_fail_reason = Some(reason.to_owned());
        self.state = if self.consecutive_fails >= FAILED_AFTER {
            SegmentState::Failed
        } else if self.consecutive_fails >= DEGRADED_AFTER {
            SegmentState::Degraded
        } else {
            SegmentState::Healthy
        };
    }
}

/// The health of every segment of a cluster, in join order.
pub struct SegmentTable {
    segments: Vec<SegmentHealth>,
}

impl View for SegmentTable {
    type V = Seq<HealthView>;

    closed spec fn view(&self) -> Seq<HealthView> {
        self.segments@.map_values(|h: SegmentHealth| h@)
    }
}

/// Segments that are not failed.
pub open spec fn active_count(s: Seq<HealthView>) -> nat
    decreases s.len(),
{
    if s.len() == 0 {
        0
    } else {
        active_count(s.drop_last()) + if s.last().state != SegmentState::Failed {
            1nat
        } else {
            0nat
        }
    }
}

impl SegmentTable {
    /// `n` healthy segments.
    pub fn new(n: usize) -> (t: Self)
        ensures
            t@ == Seq::new(n as nat, |i: int| fresh_health()),
    {
        let mut segments: Vec<SegmentHealth> = Vec::new();
        let mut i: usize = 0;
        while i < n
            invariant
                i <= n,
                segments@.len() == i,
                segments@.map_values(|h: SegmentHealth| h@) == Seq::new(
                    i as nat,
                    |j: int| fresh_health(),
                ),
            decreases n - i,
        {
            let ghost prev = segments@;
            let h = SegmentHealth::new();
            segments.push(h);
            proof {
                assert forall|j: int| 0 <= j < i + 1 implies (#[trigger] segments@[j])@
                    == fresh_health() by {
                    if j < i {
                        assert(segments@[j] == prev[j]);
                        assert(prev.map_values(|h: SegmentHealth| h@)[j] == fresh_health());
                    }
                }
                assert(segments@.map_values(|h: SegmentHealth| h@) =~= Seq::new(
                    (i + 1) as nat,
                    |j: int| fresh_health(),
                ));
            }
            i = i + 1;
        }
        SegmentTable { segments }
    }

    /// How many segments the cluster has.
    pub fn len(&self) -> (n: usize)
        ensures
            n == self@.len(),
    {
        self.segments.len()
    }

    /// Adds a healthy segment to a running cluster.
    pub fn hot_join(&mut self)
        ensures
            final(self)@ == old(self)@.push(fresh_health()),
    {
        self.segments.push(SegmentHealth::new());
        assert(self@ =~= old(self)@.push(fresh_health()));
    }

    /// Re-enables a segment recovered outside: its failure run and reason are cleared and it
    /// is healthy. An index past the end changes nothing.
    pub fn rejoin_segment(&mut self, index: usize)
        ensures
            index < old(self)@.len() ==> final(self)@ == old(self)@.update(
                index as int,
                HealthView {
                    state: SegmentState::Healthy,
                    consecutive_fails: 0,
                    last_fail_reason: None,
                    ..old(self)@[index as int]
                },
            ),
            index >= old(self)@.len() ==> final(self)@ == old(self)@,
    {
        if index < self.segments.len() {
            let old_h = &self.segments[index];
            let h = SegmentHealth {
                state: SegmentState::Healthy,
                consecutive_fails: 0,
                frames_sent: old_h.frames_sent,
                last_fail_reason: None,
            };
            self.segments.set(index, h);
            assert(self@ =~= old(self)@.update(
                index as int,
                HealthView {
                    state: SegmentState::Healthy,
                    consecutive_fails: 0,
                    last_fail_reason: None,
                    ..old(self)@[index as int]
                },
            ));
        }
    }

    /// Whether segment `index` takes part in sends: it is not failed.
    pub fn is_active(&self, index: usize) -> (b: bool)
        requires
            index < self@.len(),
        ensures
            b == (self@[index as int].state != SegmentState::Failed),
    {
        self.segments[index].state != SegmentState::Failed
    }

    /// Records the outcome of a send to segment `index`; `reason` describes a failure.
    pub fn record(&mut self, index: usize, ok: bool, reason: &str)
        requires
            index < old(self)@.len(),
            ok ==> old(self)@[index as int].frames_sent < u64::MAX,
            !ok ==> old(self)@[index as int].consecutive_fails < u32::MAX,
        ensures
            final(self)@.len() == old(self)@.len(),
            forall|j: int| 0 <= j < old(self)@.len() && j != index ==> final(self)@[j] == old(self)@[j],
            ok ==> final(self)@[index as int] == (HealthView {
                state: SegmentState::Healthy,
                consecutive_fails: 0,
                frames_sent: (old(self)@[index as int].frames_sent + 1) as u64,
                ..old(self)@[index as int]
            }),
            !ok ==> final(self)@[index as int] == (HealthView {
                state: state_for(old(self)@[index as int].consecutive_fails + 1),
                consecutive_fails: (old(self)@[index as int].consecutive_fails + 1) as u32,
                last_fail_reason: Some(reason@),
                ..old(self)@[index as int]
            }),
    {
        let old_h = &self.segments[index];
        let mut h = SegmentHealth {
            state: old_h.state,
            consecutive_fails: old_h.consecutive_fails,
            frames_sent: old_h.frames_sent,
            last_fail_reason: None,
        };
        if ok {
            h.last_fail_reason = match &old_h.last_fail_reason {
                Some(r) => Some(r.clone()),
                None => None,
            };
            h.record_success();
        } else {
            h.record_failure(reason);
        }
        self.segments.set(index, h);
    }

    /// `(frames sent, consecutive failures)` of segment `index`.
    pub fn counts(&self, index: usize) -> (r: (u64, u32))
        requires
            index < self@.len(),
        ensures
            r == (self@[index as int].frames_sent, self@[index as int].consecutive_fails),
    {
        (self.segments[index].frames_sent, self.segments[index].consecutive_fails)
    }

    /// `(state, frames sent)` of every segment, in join order.
    pub fn health_snapshot(&self) -> (v: Vec<(SegmentState, u64)>)
        ensures
            v@.len() == self@.len(),
            forall|i: int| 0 <= i < v@.len() ==> v@[i] == (self@[i].state, self@[i].frames_sent),
    {
        let mut v: Vec<(SegmentState, u64)> = Vec::new();
        let mut i: usize = 0;
        while i < self.segments.len()
            invariant
                i <= self@.len(),
                self@.len() == self.segments@.len(),
                v@.len() == i,
                forall|j: int| 0 <= j < i ==> v@[j] == (self@[j].state, self@[j].frames_sent),
            decreases self@.len() - i,
        {
            let h = &self.segments[i];
            v.push((h.state, h.frames_sent));
            i = i + 1;
        }
        v
    }

    /// Segments that are healthy or degraded: not failed.
    pub fn active_segment_count(&self) -> (n: usize)
        ensures
            n == active_count(self@),
    {
        let mut n: usize = 0;
        let mut i: usize = 0;
        while i < self.segments.len()
            invariant
                i <= self@.len(),
                self@.len() == self.segments@.len(),
                n == active_count(self@.subrange(0, i as int)),
                n <= i,
            decreases self@.len() - i,
        {
            assert(self@.subrange(0, i + 1).drop_last() =~= self@.subrange(0, i as int));
            if self.segments[i].state != SegmentState::Failed {
                n = n + 1;
            }
            i = i + 1;
        }
        assert(self@.subrange(0, self@.len() as int) =~= self@);
        n
    }
}

/// Distance between the clock's reading and a frame's timestamp, in ms.
pub fn drift_ms(now_ms: u64, frame_ts: u64) -> (d: u64)
    ensures
        d == if now_ms >= frame_ts { now_ms - frame_ts } else { frame_ts - now_ms },
{
    if now_ms >= frame_ts {
        now_ms - frame_ts
    } else {
        frame_ts - now_ms
    }
}

/// Law: failures escalate in order. Starting from any run below the degraded threshold,
/// the 3rd consecutive failure degrades the segment and the 10th fails it.
pub proof fn lemma_failure_thresholds(k: int)
    requires
        k >= 1,
    ensures
        state_for(k) == SegmentState::Healthy <==> k < 3,
        state_for(k) == SegmentState::Degraded <==> 3 <= k < 10,
        state_for(k) == SegmentState::Failed <==> k >= 10,
{
}

/// Law: one success after any run of failures makes a segment healthy and active again.
pub proof fn lemma_success_recovers(h: HealthView)
    requires
        h.frames_sent < u64::MAX,
    ensures
        ({
            let after = HealthView {
                state: SegmentState::Healthy,
                consecutive_fails: 0,
                frames_sent: (h.frames_sent + 1) as u64,
                ..h
            };
            after.state != SegmentState::Failed && after.consecutive_fails == 0
        }),
{
}

/// What one segment did with a frame.
#[derive(Clone, Copy, Debug, PartialEq, Eq, Structural)]
pub enum SegmentOutcome {
    /// The segment is out of the rotation and was not asked.
    Skipped,
    /// The segment took the frame.
    Accepted,
    /// The segment was asked and failed.
    Refused,
}

/// A frame sent to a cluster is delivered when at least one segment took it.
pub open spec fn delivered(outcomes: Seq<SegmentOutcome>) -> bool {
    exists|i: int| 0 <= i < outcomes.len() && outcomes[i] == SegmentOutcome::Accepted
}

/// Whether a frame reached the cluster: true exactly when some segment accepted it, so a
/// frame is lost only when every active segment failed (or none was active).
pub fn frame_delivered(outcomes: &[SegmentOutcome]) -> (b: bool)
    ensures
        b == delivered(outcomes@),
{
    let mut i: usize = 0;
    while i < outcomes.len()
        invariant
            i <= outcomes@.len(),
            forall|k: int| 0 <= k < i ==> outcomes@[k] != SegmentOutcome::Accepted,
        decreases outcomes@.len() - i,
    {
        if outcomes[i] == SegmentOutcome::Accepted {
            return true;
        }
        i = i + 1;
    }
    false
}

} // verus!
