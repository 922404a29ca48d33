//! Process identifiers, drawn from one counter shared by threads and tasks.
use vstd::prelude::*;

verus! {

/// Identifier of a task or thread.
#[derive(Clone, Copy, PartialEq, Eq, Structural, Debug, Hash)]
pub struct TaskId(pub u64);

impl TaskId {
    pub open spec fn id(&self) -> u64 {
        self.0
    }

    pub fn from_u64(id: u64) -> (r: TaskId)
        ensures
            r.id() == id,
    {
        TaskId(id)
    }

    pub fn as_u64(&self) -> (r: u64)
        ensures
            r == self.id(),
    {
        self.0
    }
}

/// The single source of process ids: monotonically increasing, starting at 1
/// (the first task spawned, the shell, gets pid 1).
pub struct PidCounter {
    next: u64,
}

impl PidCounter {
    /// The id the next allocation hands out; every id handed out so far is
    /// smaller.
    pub closed spec fn next_id(&self) -> u64 {
        self.next
    }

    pub fn new() -> (r: PidCounter)
        ensures
            r.next_id() == 1,
    {
        PidCounter { next: 1 }
    }

    /// Whether another id can still be handed out.
    pub fn has_next(&self) -> (r: bool)
        ensures
            r == (self.next_id() < u64::MAX),
    {
        self.next < u64::MAX
    }

    /// Hands out the next id.
    pub fn next_task_id(&mut self) -> (r: TaskId)
        requires
            old(self).next_id() < u64::MAX,
        ensures
            r.id() == old(self).next_id(),
            final(self).next_id() == old(self).next_id() + 1,
    {
        let id = self.next;
        self.next = self.next + 1;
        TaskId(id)
    }
}

/// Ids handed out by two allocations in turn differ, and every id handed
/// out stays below the counter: no later allocation can repeat it.
pub proof fn lemma_pids_unique(c0: PidCounter, c1: PidCounter, c2: PidCounter, a: TaskId, b: TaskId)
    requires
        a.id() == c0.next_id(),
        c1.next_id() == c0.next_id() + 1,
        b.id() == c1.next_id(),
        c2.next_id() == c1.next_id() + 1,
    ensures
        a != b,
        a.id() < b.id() < c2.next_id(),
{
}

/// State of the future returned by `yield_now`: pending on its first poll
/// (the poller wakes it again), ready on the second.
pub struct YieldNow {
    yielded: bool,
}

/// A future that gives the other ready tasks one turn.
pub fn yield_now() -> (r: YieldNow)
    ensures
        !r.has_yielded(),
{
    YieldNow { yielded: false }
}

impl YieldNow {
    pub closed spec fn has_yielded(&self) -> bool {
        self.yielded
    }

    /// One poll: `false` (pending, and the caller must wake the task) the
    /// first time, `true` (ready) afterwards.
    pub fn poll_step(&mut self) -> (ready: bool)
        ensures
            ready == old(self).has_yielded(),
            final(self).has_yielded(),
    {
        if self.yielded {
            true
        } else {
            self.yielded = true;
            false
        }
    }
}

} // verus!
