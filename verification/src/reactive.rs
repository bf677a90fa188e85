//! The beat-flash trigger: a flash starts on each new beat, where a beat is new when its
//! timestamp differs from the last one handled, and then decays over a fixed time. The
//! brightness curve itself is floating point and belongs to the caller; this module decides
//! when a flash starts and how long ago it did.

use vstd::prelude::*;

verus! {

/// The frequency band a band-following effect reads.
#[derive(Clone, Copy, Debug, PartialEq, Eq, Structural)]
pub enum Band {
    Bass,
    Mid,
    High,
}

/// What the flash remembers between frames.
#[derive(Clone, Copy, Debug, PartialEq, Eq, Structural)]
pub struct FlashState {
    /// Timestamp of the last beat that started a flash (`u64::MAX` before any).
    pub last_beat_ts: u64,
    /// Render time at which the current flash started.
    pub flash_start_ms: u64,
    /// Whether any flash ever started.
    pub ever: bool,
}

/// The state after a frame that saw `beat` with timestamp `beat_ts` at render time `time_ms`:
/// a new beat restarts the flash; anything else leaves the state as it was.
pub open spec fn observed(s: FlashState, beat: bool, beat_ts: u64, time_ms: u64) -> FlashState {
    if beat && beat_ts != s.last_beat_ts {
        FlashState { last_beat_ts: beat_ts, flash_start_ms: time_ms, ever: true }
    } else {
        s
    }
}

impl FlashState {
    /// No flash yet.
    pub fn new() -> (s: Self)
        ensures
            s == (FlashState { last_beat_ts: u64::MAX, flash_start_ms: 0, ever: false }),
    {
        FlashState { last_beat_ts: u64::MAX, flash_start_ms: 0, ever: false }
    }

    /// Takes in one frame's audio: restarts the flash on a new beat. Returns whether it did.
    pub fn observe(&mut self, beat: bool, beat_ts: u64, time_ms: u64) -> (started: bool)
        ensures
            *final(self) == observed(*old(self), beat, beat_ts, time_ms),
            started == (beat && beat_ts != old(self).last_beat_ts),
    {
        if beat && beat_ts != self.last_beat_ts {
            self.flash_start_ms = time_ms;
            self.last_beat_ts = beat_ts;
            self.ever = true;
            true
        } else {
            false
        }
    }

    /// How long the current flash has been decaying at `time_ms` (zero when the clock reads
    /// earlier than its start), or `None` when there is nothing to show: no flash ever
    /// started, or a zero decay makes every flash invisible.
    pub fn elapsed_ms(&self, time_ms: u64, decay_ms: u64) -> (r: Option<u64>)
        ensures
            r == (if !self.ever || decay_ms == 0 {
                None
            } else if time_ms >= self.flash_start_ms {
                Some((time_ms - self.flash_start_ms) as u64)
            } else {
                Some(0u64)
            }),
    {
        if !self.ever || decay_ms == 0 {
            None
        } else {
            Some(time_ms.saturating_sub(self.flash_start_ms))
        }
    }
}

/// Law: a beat is handled once. Seeing the same beat again, at any later frame, never
/// restarts the flash.
pub proof fn lemma_same_beat_never_retriggers(s: FlashState, beat_ts: u64, t1: u64, t2: u64)
    ensures
        observed(observed(s, true, beat_ts, t1), true, beat_ts, t2) == observed(
            s,
            true,
            beat_ts,
            t1,
        ),
{
}

/// Law: without a beat, the flash state never changes.
pub proof fn lemma_silence_keeps_the_flash(s: FlashState, beat_ts: u64, t: u64)
    ensures
        observed(s, false, beat_ts, t) == s,
{
}

} // verus!
