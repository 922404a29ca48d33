//! The scancode stream: the single consumer of the keyboard's scancode ring.
//!
//! Polling it is two steps. The first takes a queued scancode if there is
//! one. If there is none, the second installs the consumer's waker and only
//! then looks at the ring again, so that a scancode pushed between the two
//! steps is returned rather than left waiting for a wake-up that already
//! happened.
use vstd::prelude::*;
use crate::interrupts::ScancodeQueue;

verus! {

pub struct ScancodeStream {
    _private: (),
}

pub struct ScancodeStreamFuture {
    _private: (),
}

/// What `register_and_recheck` does to the ring and the waker slot.
pub open spec fn recheck_post<W>(q: ScancodeQueue, q2: ScancodeQueue, slot2: Option<W>, waker: W, r: Option<u8>) -> bool {
    &&& q2.wf()
    &&& slot2 == Some(waker)
    &&& match r {
        Some(v) => q@.len() > 0 && v == q@[0] && q2@ == q@.subrange(1, q@.len() as int),
        None => q@.len() == 0 && q2@ == q@,
    }
}

impl ScancodeStream {
    /// The stream. There is only one: `taken` records that it was handed out,
    /// and asking twice is a programming error.
    pub fn new(taken: &mut bool) -> (r: ScancodeStream)
        requires
            !*old(taken),
        ensures
            *final(taken),
    {
        *taken = true;
        ScancodeStream { _private: () }
    }

    /// A future for the next scancode.
    pub fn next(&self) -> (r: ScancodeStreamFuture) {
        ScancodeStreamFuture { _private: () }
    }
}

impl ScancodeStreamFuture {
    /// First step of a poll: the oldest queued scancode, if any.
    pub fn try_take(&self, queue: &mut ScancodeQueue) -> (r: Option<u8>)
        requires
            old(queue).wf(),
        ensures
            final(queue).wf(),
            match r {
                Some(v) => old(queue)@.len() > 0 && v == old(queue)@[0] && final(queue)@ == old(queue)@.subrange(1, old(queue)@.len() as int),
                None => old(queue)@.len() == 0 && final(queue)@ == old(queue)@,
            },
    {
        queue.pop()
    }

    /// Second step, after the first found the ring empty: install `waker`,
    /// then look at the ring again. `None` means pending.
    pub fn register_and_recheck<W>(&self, queue: &mut ScancodeQueue, slot: &mut Option<W>, waker: W) -> (r: Option<u8>)
        requires
            old(queue).wf(),
        ensures
            recheck_post(*old(queue), *final(queue), *final(slot), waker, r),
    {
        *slot = Some(waker);
        queue.pop()
    }
}

/// Called by the keyboard ISR after queueing a scancode: the waker to wake,
/// if the consumer has installed one.
pub fn notify_keyboard_interrupt<W>(slot: &Option<W>) -> (r: Option<&W>)
    ensures
        match *slot {
            Some(w) => r == Some(&w),
            None => r is None,
        },
{
    match slot {
        Some(w) => Some(w),
        None => None,
    }
}

/// A poll that reports pending loses no scancode: whatever the ring held
/// when the waker was installed, including bytes pushed after the first
/// look, is returned by the second look, and the waker is in place for any
/// byte that comes later.
pub proof fn lemma_recheck_closes_race<W>(q: ScancodeQueue, q2: ScancodeQueue, slot2: Option<W>, waker: W, r: Option<u8>)
    requires
        q.wf(),
        recheck_post(q, q2, slot2, waker, r),
    ensures
        q@.len() > 0 ==> r == Some(q@[0]),
        r is None ==> q@.len() == 0 && slot2 == Some(waker),
{
}

} // verus!
