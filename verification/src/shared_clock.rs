//! `SharedClock` — monotonic show time with a signed offset for multi-node sync.
//!
//! Show time is `wall_ms + offset_ms`, saturating at both ends of `u64`, and a reading never
//! goes below the previous one: `now_ms` returns `max(previous, wall + offset)`.

use vstd::prelude::*;

use crate::clock::{elapsed, elapsed_ms, instant_now};

verus! {

/// `wall + offset`, saturating at `0` and at `u64::MAX`.
pub open spec fn adjusted(wall: u64, offset: i64) -> u64 {
    if offset >= 0 {
        if wall + offset > u64::MAX { u64::MAX } else { (wall + offset) as u64 }
    } else {
        if wall + offset < 0 { 0 } else { (wall + offset) as u64 }
    }
}

/// A reading: the adjusted wall time, never below the previous reading.
pub open spec fn reading(wall: u64, offset: i64, prev: u64) -> u64 {
    let a = adjusted(wall, offset);
    if a >= prev { a } else { prev }
}

/// What a [`SharedClock`] holds besides its epoch.
pub struct ClockView {
    pub offset_ms: i64,
    pub last_now: u64,
}

/// A monotonic show-time clock with a signed offset (ms) from a reference node.
pub struct SharedClock {
    epoch: std::time::Instant,
    offset_ms: i64,
    last_now: u64,
}

impl View for SharedClock {
    type V = ClockView;

    closed spec fn view(&self) -> ClockView {
        ClockView { offset_ms: self.offset_ms, last_now: self.last_now }
    }
}

impl SharedClock {
    /// A clock with zero offset whose epoch is now.
    pub fn new() -> (c: Self)
        ensures
            c@.offset_ms == 0,
            c@.last_now == 0,
    {
        SharedClock { epoch: instant_now(), offset_ms: 0, last_now: 0 }
    }

    /// A clock with a known offset from a reference node.
    pub fn with_offset(offset_ms: i64) -> (c: Self)
        ensures
            c@.offset_ms == offset_ms,
            c@.last_now == 0,
    {
        SharedClock { epoch: instant_now(), offset_ms, last_now: 0 }
    }

    /// The reading for a wall time of `wall_ms` since the epoch: `max(previous, wall +
    /// offset)`, recorded as the new previous reading.
    pub fn now_ms_at(&mut self, wall_ms: u64) -> (r: u64)
        ensures
            r == reading(wall_ms, old(self)@.offset_ms, old(self)@.last_now),
            final(self)@ == (ClockView { last_now: r, ..old(self)@ }),
    {
        let offset = self.offset_ms;
        let adjusted: u64 = if offset >= 0 {
            wall_ms.saturating_add(offset as u64)
        } else {
            // The magnitude of a negative offset, `|offset|`, which fits a `u64` even for
            // `i64::MIN`.
            let magnitude: u64 = ((-(offset + 1)) as u64) + 1;
            wall_ms.saturating_sub(magnitude)
        };
        let prev = self.last_now;
        let next = if adjusted >= prev { adjusted } else { prev };
        self.last_now = next;
        next
    }

    /// Current show time in ms. Reads the wall clock, then applies [`Self::now_ms_at`]; a
    /// reading is never below the one before it.
    pub fn now_ms(&mut self) -> (r: u64)
        ensures
            r >= old(self)@.last_now,
            exists|wall: u64| r == reading(wall, old(self)@.offset_ms, old(self)@.last_now),
            final(self)@ == (ClockView { last_now: r, ..old(self)@ }),
    {
        let wall = elapsed_ms(&self.epoch);
        self.now_ms_at(wall)
    }

    /// Replaces the offset.
    pub fn set_offset_ms(&mut self, offset_ms: i64)
        ensures
            final(self)@ == (ClockView { offset_ms, ..old(self)@ }),
    {
        self.offset_ms = offset_ms;
    }

    /// The current offset (ms).
    pub fn offset_ms(&self) -> (o: i64)
        ensures
            o == self@.offset_ms,
    {
        self.offset_ms
    }

    /// Time elapsed since the epoch.
    pub fn elapsed(&self) -> std::time::Duration {
        elapsed(&self.epoch)
    }
}

impl Default for SharedClock {
    fn default() -> (c: Self)
        ensures
            c@.offset_ms == 0,
            c@.last_now == 0,
    {
        SharedClock::new()
    }
}

/// A `u64` read as the `i64` with the same bits.
pub open spec fn as_signed(x: u64) -> int {
    if x > i64::MAX { x - 0x1_0000_0000_0000_0000int } else { x as int }
}

fn to_signed(x: u64) -> (r: i64)
    ensures
        r == as_signed(x),
{
    if x <= 0x7FFF_FFFF_FFFF_FFFFu64 {
        x as i64
    } else {
        let y = (x - 0x8000_0000_0000_0000u64) as i64;
        y - 0x7FFF_FFFF_FFFF_FFFFi64 - 1
    }
}

/// The offset to add to a local clock that reads `local_ts_ms` when the reference reads
/// `reference_ts_ms`: `reference - local`, both read as signed 64-bit values. Inputs whose
/// difference does not fit in an `i64` are not accepted.
pub fn calibrate_offset(reference_ts_ms: u64, local_ts_ms: u64) -> (o: i64)
    requires
        i64::MIN <= as_signed(reference_ts_ms) - as_signed(local_ts_ms) <= i64::MAX,
    ensures
        o == as_signed(reference_ts_ms) - as_signed(local_ts_ms),
{
    to_signed(reference_ts_ms) - to_signed(local_ts_ms)
}

/// Calibration aligns the clocks: once a follower that read `local` at the moment the
/// reference read `reference` adds `calibrate_offset(reference, local)`, its adjusted reading
/// of that same wall time is the reference's.
pub proof fn lemma_calibration_aligns(reference: u64, local: u64)
    requires
        reference <= i64::MAX,
        local <= i64::MAX,
    ensures
        adjusted(local, (as_signed(reference) - as_signed(local)) as i64) == reference,
{
}

/// Readings never go backwards: a reading is at least the previous one and at least the
/// adjusted wall time, whatever the offset (a backward correction included).
pub proof fn lemma_reading_monotone(wall: u64, offset: i64, prev: u64)
    ensures
        reading(wall, offset, prev) >= prev,
        reading(wall, offset, prev) >= adjusted(wall, offset),
{
}

} // verus!
