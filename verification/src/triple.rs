//! The triple buffer of the render→send handoff.
//!
//! Render and send never share a mutable buffer. Three buffers exist: one held by the
//! producer, one by the consumer, and one in the shared slot. The producer writes into its
//! own buffer and publishes it by swapping it with the slot's, marking the slot fresh; the
//! consumer, when the slot is fresh, swaps its buffer with the slot's. Every buffer is owned
//! by exactly one party at a time, so the consumer never sees a frame that is being written,
//! and it always gets the latest one published (stale frames are skipped, which is right for
//! lights). Whoever runs producer and consumer on two threads guards the slot.

use vstd::multiset::Multiset;
use vstd::prelude::*;

verus! {

/// The write half: the buffer the next frame is written into.
pub struct Producer<T> {
    buf: T,
}

/// The read half: the buffer of the latest frame taken.
pub struct Consumer<T> {
    buf: T,
}

/// The shared slot: the buffer last published, and whether it has not been taken yet.
pub struct Handoff<T> {
    buf: T,
    fresh: bool,
}

impl<T> View for Producer<T> {
    type V = T;

    closed spec fn view(&self) -> T {
        self.buf
    }
}

impl<T> View for Consumer<T> {
    type V = T;

    closed spec fn view(&self) -> T {
        self.buf
    }
}

impl<T> View for Handoff<T> {
    type V = (T, bool);

    closed spec fn view(&self) -> (T, bool) {
        (self.buf, self.fresh)
    }
}

/// Publishing: the producer's buffer goes to the slot, fresh, and the producer takes the
/// slot's buffer to write the next frame into. Result: (producer, slot).
pub open spec fn published<T>(p: T, s: (T, bool)) -> (T, (T, bool)) {
    (s.0, (p, true))
}

/// Updating: when the slot is fresh the consumer swaps its buffer with it and the slot is
/// no longer fresh; otherwise nothing changes. Result: (consumer, slot).
pub open spec fn updated<T>(c: T, s: (T, bool)) -> (T, (T, bool)) {
    if s.1 { (s.0, (c, false)) } else { (c, s) }
}

/// The three buffers, wherever they are.
pub open spec fn buffers<T>(p: T, c: T, s: (T, bool)) -> Multiset<T> {
    Multiset::empty().insert(p).insert(c).insert(s.0)
}

/// A triple buffer over three pre-allocated buffers: the producer writes into `a`, the
/// consumer starts on `b`, and `c` waits in the slot, not fresh.
pub fn triple_buffer<T>(a: T, b: T, c: T) -> (r: (Producer<T>, Consumer<T>, Handoff<T>))
    ensures
        r.0@ == a,
        r.1@ == b,
        r.2@ == (c, false),
{
    (Producer { buf: a }, Consumer { buf: b }, Handoff { buf: c, fresh: false })
}

impl<T> Producer<T> {
    /// The buffer to write the next frame into. Only the producer touches it.
    pub fn input(&mut self) -> (r: &mut T)
        ensures
            *r == old(self)@,
            final(self)@ == *final(r),
    {
        &mut self.buf
    }

    /// Publishes the written buffer as the latest. Never waits.
    pub fn publish(&mut self, shared: &mut Handoff<T>)
        ensures
            (final(self)@, final(shared)@) == published(old(self)@, old(shared)@),
    {
        std::mem::swap(&mut self.buf, &mut shared.buf);
        shared.fresh = true;
    }
}

impl<T> Consumer<T> {
    /// When a newer buffer was published, swaps to it and returns `true`. Never waits.
    pub fn update(&mut self, shared: &mut Handoff<T>) -> (b: bool)
        ensures
            b == old(shared)@.1,
            (final(self)@, final(shared)@) == updated(old(self)@, old(shared)@),
    {
        if shared.fresh {
            std::mem::swap(&mut self.buf, &mut shared.buf);
            shared.fresh = false;
            true
        } else {
            false
        }
    }

    /// The latest buffer taken by [`Consumer::update`]. Only the consumer touches it.
    pub fn output(&self) -> (r: &T)
        ensures
            *r == self@,
    {
        &self.buf
    }
}

/// Law: no buffer is ever lost or duplicated. Publishing and updating only move the three
/// buffers between producer, consumer and slot.
pub proof fn lemma_buffers_are_conserved<T>(p: T, c: T, s: (T, bool))
    ensures
        buffers(published(p, s).0, c, published(p, s).1) == buffers(p, c, s),
        buffers(p, updated(c, s).0, updated(c, s).1) == buffers(p, c, s),
{
    assert(buffers(published(p, s).0, c, published(p, s).1) =~= buffers(p, c, s));
    assert(buffers(p, updated(c, s).0, updated(c, s).1) =~= buffers(p, c, s));
}

/// Law: the consumer always gets the latest frame. After two publishes with no update in
/// between, an update hands the consumer the second frame, the first is back with the
/// producer to be overwritten, and a further update finds nothing new.
pub proof fn lemma_latest_frame_wins<T>(first: T, second: T, c: T, s: (T, bool))
    ensures
        ({
            let s1 = published(first, s).1;
            let s2 = published(second, s1).1;
            let (c2, s3) = updated(c, s2);
            &&& published(second, s1).0 == first
            &&& c2 == second
            &&& !s3.1
            &&& updated(c2, s3) == (c2, s3)
        }),
{
}

/// The slot after the frames `frames` were published, in order, from slot `s`. (What the
/// producer holds in between is what the next frame gets written into.)
pub open spec fn published_all<T>(frames: Seq<T>, s: (T, bool)) -> (T, bool)
    decreases frames.len(),
{
    if frames.len() == 0 {
        s
    } else {
        published(frames.last(), published_all(frames.drop_last(), s)).1
    }
}

/// Law: the consumer sees the latest frame, after any number of publishes. Starting from a
/// slot the consumer has already taken (not fresh), with no publish an update returns
/// `false` and changes nothing; after `k >= 1` publishes an update returns `true` and hands
/// the consumer the last frame published, never an older one, and an update right after it
/// returns `false` and changes nothing.
pub proof fn lemma_consumer_sees_the_last_publish<T>(frames: Seq<T>, c: T, s: (T, bool))
    requires
        !s.1,
    ensures
        frames.len() == 0 ==> ({
            let slot = published_all(frames, s);
            &&& !slot.1
            &&& updated(c, slot) == (c, slot)
        }),
        frames.len() > 0 ==> ({
            let slot = published_all(frames, s);
            let (c2, s2) = updated(c, slot);
            &&& slot.1
            &&& c2 == frames.last()
            &&& !s2.1
            &&& updated(c2, s2) == (c2, s2)
        }),
    decreases frames.len(),
{
    if frames.len() > 0 {
        lemma_consumer_sees_the_last_publish(frames.drop_last(), c, s);
    }
}

} // verus!
