//! Keep-alive. Controllers enter safe mode after about 2.5 s of silence, so something valid
//! must keep flowing. The rule that matters: resend the last valid frame, never a zeroed one,
//! which would black the rig out. [`Heartbeat::beat`] decides what a keep-alive sends; the
//! timer that calls it and the output that sends belong to the caller.

use vstd::prelude::*;

verus! {

/// The last frame the sequencer really produced, kept for keep-alives.
pub struct Heartbeat<F> {
    last_valid: Option<F>,
}

impl<F> View for Heartbeat<F> {
    type V = Option<F>;

    closed spec fn view(&self) -> Option<F> {
        self.last_valid
    }
}

impl<F> Heartbeat<F> {
    /// No frame recorded yet.
    pub fn new() -> (h: Self)
        ensures
            h@ is None,
    {
        Heartbeat { last_valid: None }
    }

    /// Records a frame the sequencer actually produced. Only real frames land here.
    pub fn record(&mut self, frame: F)
        ensures
            final(self)@ == Some(frame),
    {
        self.last_valid = Some(frame);
    }

    /// What a keep-alive sends: the last recorded frame, or nothing when none was ever
    /// recorded. A keep-alive never fabricates a frame.
    pub fn beat(&self) -> (r: Option<&F>)
        ensures
            match r {
                Some(f) => self@ == Some(*f),
                None => self@ is None,
            },
    {
        match &self.last_valid {
            Some(f) => Some(f),
            None => None,
        }
    }
}

} // verus!
