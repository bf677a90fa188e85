//! Controlled fault injection for resilience experiments.
//!
//! A [`ChaosHarness`] decides, frame by frame, what happens to a send: forwarded, delayed,
//! silently dropped, or refused as a simulated crash. Whoever wraps an output performs the
//! decision. Every fault is deterministic given the seed, so experiments are reproducible.

use vstd::prelude::*;

use crate::noise::{mix64, spec_mix64};
use crate::text::{push_str, push_u64};

verus! {

/// Configuration of a chaos experiment.
#[derive(Clone, Copy, Debug, PartialEq, Eq, Structural)]
pub struct FaultConfig {
    /// Percentage of frames to drop, `0..=100`.
    pub packet_loss_pct: u8,
    /// Artificial delay per frame (µs). Zero: no delay.
    pub latency_us: u64,
    /// Refuse every frame from this one on. Zero: never crash.
    pub crash_after_frames: u64,
    /// Seed of the deterministic fault selection.
    pub seed: u64,
}

/// The configuration with no fault at all.
pub open spec fn no_faults() -> FaultConfig {
    FaultConfig { packet_loss_pct: 0, latency_us: 0, crash_after_frames: 0, seed: 0 }
}

impl Default for FaultConfig {
    fn default() -> (c: Self)
        ensures
            c == no_faults(),
    {
        FaultConfig { packet_loss_pct: 0, latency_us: 0, crash_after_frames: 0, seed: 0 }
    }
}

impl FaultConfig {
    /// Drops `pct` percent of the frames (at most 100), chosen from `seed`.
    pub fn packet_loss(pct: u8, seed: u64) -> (c: Self)
        ensures
            c == (FaultConfig {
                packet_loss_pct: if pct < 100 { pct } else { 100 },
                seed,
                ..no_faults()
            }),
    {
        let p = if pct < 100 {
            pct
        } else {
            100
        };
        FaultConfig { packet_loss_pct: p, latency_us: 0, crash_after_frames: 0, seed }
    }

    /// Refuses every frame from the `n`-th on.
    pub fn crash_after(n: u64) -> (c: Self)
        ensures
            c == (FaultConfig { crash_after_frames: n, ..no_faults() }),
    {
        FaultConfig { packet_loss_pct: 0, latency_us: 0, crash_after_frames: n, seed: 0 }
    }

    /// Delays every frame by `us` microseconds.
    pub fn latency_us(us: u64) -> (c: Self)
        ensures
            c == (FaultConfig { latency_us: us, ..no_faults() }),
    {
        FaultConfig { packet_loss_pct: 0, latency_us: us, crash_after_frames: 0, seed: 0 }
    }

    /// No faults: the harness is transparent.
    pub fn baseline() -> (c: Self)
        ensures
            c == no_faults(),
    {
        FaultConfig { packet_loss_pct: 0, latency_us: 0, crash_after_frames: 0, seed: 0 }
    }
}

/// The SplitMix64 increment.
pub const GOLDEN_GAMMA: u64 = 0x9e37_79b9_7f4a_7c15;

/// The generator state after one draw.
pub open spec fn rng_next(state: u64) -> u64 {
    ((state + GOLDEN_GAMMA) % 0x1_0000_0000_0000_0000) as u64
}

/// What happens to a send.
#[derive(Clone, Copy, Debug, PartialEq, Eq, Structural)]
pub enum ChaosAction {
    /// Pass the frame on.
    Forward,
    /// Wait this many µs, then pass the frame on.
    DelayThenForward { latency_us: u64 },
    /// Drop the frame silently; the send reports success.
    Drop,
    /// Refuse the frame: a simulated crash, this being the `frames`-th frame.
    Crash { frames: u64 },
}

/// The fault-injection state carried from send to send.
#[derive(Clone, Copy, Debug, PartialEq, Eq, Structural)]
pub struct ChaosHarness {
    pub config: FaultConfig,
    pub frame_count: u64,
    pub drop_count: u64,
    pub active: bool,
    pub rng_state: u64,
}

/// The decision for the next send, and the state after it.
pub open spec fn decide_spec(h: ChaosHarness) -> (ChaosAction, ChaosHarness) {
    let n = (h.frame_count + 1) as u64;
    let counted = ChaosHarness { frame_count: n, ..h };
    if !h.active {
        (ChaosAction::Forward, counted)
    } else if h.config.crash_after_frames > 0 && n >= h.config.crash_after_frames {
        (ChaosAction::Crash { frames: n }, counted)
    } else if h.config.packet_loss_pct > 0 {
        let state = rng_next(h.rng_state);
        let drawn = ChaosHarness { rng_state: state, ..counted };
        if spec_mix64(state) % 100 < h.config.packet_loss_pct {
            (ChaosAction::Drop, ChaosHarness { drop_count: (h.drop_count + 1) as u64, ..drawn })
        } else if h.config.latency_us > 0 {
            (ChaosAction::DelayThenForward { latency_us: h.config.latency_us }, drawn)
        } else {
            (ChaosAction::Forward, drawn)
        }
    } else if h.config.latency_us > 0 {
        (ChaosAction::DelayThenForward { latency_us: h.config.latency_us }, counted)
    } else {
        (ChaosAction::Forward, counted)
    }
}

/// The message of a simulated crash.
pub open spec fn crash_message(frames: u64) -> Seq<char> {
    "chaos: simulated crash after "@ + crate::text::dec(frames as nat) + " frames"@
}

impl ChaosHarness {
    /// A harness for `config`, active, with the generator seeded from it.
    pub fn new(config: FaultConfig) -> (h: Self)
        ensures
            h == (ChaosHarness {
                config,
                frame_count: 0,
                drop_count: 0,
                active: true,
                rng_state: config.seed,
            }),
    {
        ChaosHarness { config, frame_count: 0, drop_count: 0, active: true, rng_state: config.seed }
    }

    /// Makes the harness transparent.
    pub fn disable(&mut self)
        ensures
            *final(self) == (ChaosHarness { active: false, ..*old(self) }),
    {
        self.active = false;
    }

    /// Re-enables fault injection.
    pub fn enable(&mut self)
        ensures
            *final(self) == (ChaosHarness { active: true, ..*old(self) }),
    {
        self.active = true;
    }

    /// Frames seen so far.
    pub fn frame_count(&self) -> (n: u64)
        ensures
            n == self.frame_count,
    {
        self.frame_count
    }

    /// Frames dropped so far.
    pub fn drop_count(&self) -> (n: u64)
        ensures
            n == self.drop_count,
    {
        self.drop_count
    }

    /// Next value of the deterministic generator (SplitMix64).
    fn next_rand(&mut self) -> (r: u64)
        ensures
            final(self).rng_state == rng_next(old(self).rng_state),
            r == spec_mix64(final(self).rng_state),
            *final(self) == (ChaosHarness { rng_state: final(self).rng_state, ..*old(self) }),
    {
        self.rng_state = self.rng_state.wrapping_add(GOLDEN_GAMMA);
        mix64(self.rng_state)
    }

    /// Decides what happens to the next send. Every send counts as a frame; when the
    /// harness is active, a crash is checked first, then packet loss, then latency.
    pub fn decide(&mut self) -> (a: ChaosAction)
        requires
            old(self).frame_count < u64::MAX,
            old(self).drop_count < u64::MAX,
        ensures
            (a, *final(self)) == decide_spec(*old(self)),
    {
        let n = self.frame_count + 1;
        self.frame_count = n;
        if !self.active {
            return ChaosAction::Forward;
        }
        if self.config.crash_after_frames > 0 && n >= self.config.crash_after_frames {
            return ChaosAction::Crash { frames: n };
        }
        if self.config.packet_loss_pct > 0 {
            let r = self.next_rand();
            if r % 100 < self.config.packet_loss_pct as u64 {
                self.drop_count = self.drop_count + 1;
                return ChaosAction::Drop;
            }
        }
        if self.config.latency_us > 0 {
            ChaosAction::DelayThenForward { latency_us: self.config.latency_us }
        } else {
            ChaosAction::Forward
        }
    }
}

/// The error text of a simulated crash at the `frames`-th frame.
pub fn crash_error(frames: u64) -> (s: String)
    ensures
        s@ == crash_message(frames),
{
    let mut s = String::new();
    push_str(&mut s, "chaos: simulated crash after ");
    push_u64(&mut s, frames);
    push_str(&mut s, " frames");
    s
}

/// Law: a disabled harness is transparent: it forwards every frame and only counts it.
pub proof fn lemma_disabled_is_transparent(h: ChaosHarness)
    requires
        !h.active,
    ensures
        decide_spec(h).0 == ChaosAction::Forward,
        decide_spec(h).1 == (ChaosHarness { frame_count: (h.frame_count + 1) as u64, ..h }),
{
}

/// Law: the baseline configuration never drops, delays or refuses a frame.
pub proof fn lemma_baseline_forwards_everything(h: ChaosHarness)
    requires
        h.config == no_faults(),
    ensures
        decide_spec(h).0 == ChaosAction::Forward,
{
}

/// Law: with 100% packet loss (and no crash configured), every frame is dropped.
pub proof fn lemma_total_loss_drops_everything(h: ChaosHarness)
    requires
        h.active,
        h.config.packet_loss_pct == 100,
        h.config.crash_after_frames == 0,
        h.drop_count < u64::MAX,
    ensures
        decide_spec(h).0 == ChaosAction::Drop,
        decide_spec(h).1.drop_count == h.drop_count + 1,
{
}

/// Law: from the configured frame on, a crashing harness refuses every frame, and before it
/// no frame is refused.
pub proof fn lemma_crash_from_threshold(h: ChaosHarness)
    requires
        h.active,
        h.config.crash_after_frames > 0,
        h.frame_count < u64::MAX,
    ensures
        (decide_spec(h).0 is Crash) <==> h.frame_count + 1 >= h.config.crash_after_frames,
{
}

/// Law: the harness is deterministic: the same state decides the same way, so two
/// experiments with the same seed drop the same frames.
pub proof fn lemma_same_seed_same_decisions(a: ChaosHarness, b: ChaosHarness)
    requires
        a == b,
    ensures
        decide_spec(a) == decide_spec(b),
{
}

/// Law: packet loss and latency are independent faults. When the harness is active and no
/// crash is due, a frame is either dropped (only when packet loss is configured) or kept;
/// a kept frame is delayed by the configured latency exactly when that latency is not zero,
/// whatever the packet-loss setting, and is forwarded at once otherwise.
pub proof fn lemma_kept_frames_get_the_latency(h: ChaosHarness)
    requires
        h.active,
        !(h.config.crash_after_frames > 0 && h.frame_count + 1 >= h.config.crash_after_frames),
    ensures
        decide_spec(h).0 == ChaosAction::Drop ==> h.config.packet_loss_pct > 0,
        decide_spec(h).0 != ChaosAction::Drop ==> decide_spec(h).0 == (if h.config.latency_us > 0 {
            ChaosAction::DelayThenForward { latency_us: h.config.latency_us }
        } else {
            ChaosAction::Forward
        }),
        h.frame_count < u64::MAX ==> decide_spec(h).1.frame_count == h.frame_count + 1,
        h.drop_count < u64::MAX ==> decide_spec(h).1.drop_count == h.drop_count + if decide_spec(
            h,
        ).0 == ChaosAction::Drop {
            1int
        } else {
            0int
        },
{
}

} // verus!
