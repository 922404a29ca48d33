//! Preemptive thread scheduler: thread records, the ready queue, and the
//! decision taken at every timer tick.
//!
//! The scheduler deals in addresses only. Allocating a stack, writing the
//! synthetic frame into it, freeing a stack and switching the stack pointer
//! are done by the caller, which performs what a `ScheduleOutcome` asks.
use vstd::prelude::*;
use std::collections::VecDeque;
use crate::context::{initial_frame, initial_frame_addr, spec_initial_frame, InterruptFrame, FRAME_BYTES};
use crate::process::{fresh_process, terminated, Pid, ProcessTable, EXIT_CLEAN, EXIT_KILLED};
use crate::task::{PidCounter, TaskId};

verus! {

/// Bytes of stack given to every thread.
pub const THREAD_STACK_SIZE: usize = 16 * 1024;

/// Milliseconds per timer tick (the timer runs at 100 Hz).
pub const TICK_MS: u64 = 10;

#[derive(Clone, Copy, PartialEq, Eq, Structural, Debug)]
pub enum ThreadState {
    Ready,
    Running,
    /// Absolute tick at which the thread may run again.
    Sleeping(u64),
    Terminated,
}

/// A heap-allocated stack: its lowest address and its size.
#[derive(Clone, Copy, PartialEq, Eq, Structural, Debug)]
pub struct StackRegion {
    pub bottom: u64,
    pub size: usize,
}

pub struct Thread {
    pub pid: u64,
    pub name: String,
    pub state: ThreadState,
    pub parent_pid: Option<u64>,
    pub stack: StackRegion,
    /// Address of the frame to resume from; meaningful while not running.
    pub saved_frame: u64,
}

/// What the interrupt stub must do after a scheduling decision: resume the
/// frame at `frame`, after freeing each stack in `freed`.
pub struct ScheduleOutcome {
    pub frame: u64,
    pub freed: Vec<StackRegion>,
}

pub struct Scheduler {
    threads: VecDeque<Thread>,
    current: Option<Thread>,
    idle_frame: u64,
    deferred_dealloc: Option<StackRegion>,
}

pub open spec fn with_state(t: Thread, s: ThreadState) -> Thread {
    Thread {
        pid: t.pid,
        name: t.name,
        state: s,
        parent_pid: t.parent_pid,
        stack: t.stack,
        saved_frame: t.saved_frame,
    }
}

pub open spec fn with_frame(t: Thread, frame: u64) -> Thread {
    Thread {
        pid: t.pid,
        name: t.name,
        state: t.state,
        parent_pid: t.parent_pid,
        stack: t.stack,
        saved_frame: frame,
    }
}

/// A queued thread that the next decision at `tick` may run: ready, or
/// asleep with its wake tick reached.
pub open spec fn runnable(t: Thread, tick: u64) -> bool {
    match t.state {
        ThreadState::Ready => true,
        ThreadState::Sleeping(w) => tick >= w,
        _ => false,
    }
}

/// Index of the first runnable thread of `q`, or `q.len()` if there is none.
pub open spec fn first_runnable(q: Seq<Thread>, tick: u64) -> int
    decreases q.len(),
{
    if q.len() == 0 {
        0
    } else if runnable(q[0], tick) {
        0
    } else {
        1 + first_runnable(q.subrange(1, q.len() as int), tick)
    }
}

/// The threads of `q` that are not terminated, in order.
pub open spec fn live(q: Seq<Thread>) -> Seq<Thread>
    decreases q.len(),
{
    if q.len() == 0 {
        Seq::empty()
    } else if q.last().state is Terminated {
        live(q.drop_last())
    } else {
        live(q.drop_last()).push(q.last())
    }
}

/// The stacks of the terminated threads of `q`, in order.
pub open spec fn dead_stacks(q: Seq<Thread>) -> Seq<StackRegion>
    decreases q.len(),
{
    if q.len() == 0 {
        Seq::empty()
    } else if q.last().state is Terminated {
        dead_stacks(q.drop_last()).push(q.last().stack)
    } else {
        dead_stacks(q.drop_last())
    }
}

pub open spec fn opt_seq(o: Option<StackRegion>) -> Seq<StackRegion> {
    match o {
        Some(r) => seq![r],
        None => Seq::empty(),
    }
}

/// The queue with the running thread put back as a tick demands: a
/// terminated one is dropped, a sleeping one keeps its state, any other
/// becomes ready; each records `frame` as its saved frame.
pub open spec fn requeued(q: Seq<Thread>, cur: Option<Thread>, frame: u64) -> Seq<Thread> {
    match cur {
        None => q,
        Some(t) => match t.state {
            ThreadState::Terminated => q,
            ThreadState::Sleeping(_) => q.push(with_frame(t, frame)),
            _ => q.push(with_state(with_frame(t, frame), ThreadState::Ready)),
        },
    }
}

impl Scheduler {
    /// The ready queue, front first.
    pub closed spec fn queue(&self) -> Seq<Thread> {
        self.threads@
    }

    /// The thread that owns the CPU, if any (none: the executor runs).
    pub closed spec fn running(&self) -> Option<Thread> {
        self.current
    }

    /// The last saved frame of the executor context.
    pub closed spec fn idle(&self) -> u64 {
        self.idle_frame
    }

    /// The stack whose release waits for the next decision.
    pub closed spec fn deferred(&self) -> Option<StackRegion> {
        self.deferred_dealloc
    }

    /// All threads the scheduler holds: the queue, then the running one.
    pub open spec fn all_threads(&self) -> Seq<Thread> {
        match self.running() {
            Some(t) => self.queue().push(t),
            None => self.queue(),
        }
    }

    /// No queued thread is running: the running thread, if any, is the
    /// only one.
    pub open spec fn wf(&self) -> bool {
        forall|i: int| 0 <= i < self.queue().len() ==> !(#[trigger] self.queue()[i].state is Running)
    }

    /// The state after a decision at `tick` on the interrupted `frame`, and
    /// the outcome handed to the interrupt stub.
    pub open spec fn schedule_post(&self, frame: u64, tick: u64, next: &Scheduler, out: ScheduleOutcome) -> bool {
        let q = requeued(self.queue(), self.running(), frame);
        let j = first_runnable(q, tick);
        &&& next.idle() == (if self.running() is None { frame } else { self.idle() })
        &&& next.deferred() == (match self.running() {
            Some(t) => if t.state is Terminated { Some(t.stack) } else { None },
            None => None,
        })
        &&& if j < q.len() {
            &&& next.running() == Some(with_state(q[j], ThreadState::Running))
            &&& next.queue() == q.subrange(j + 1, q.len() as int) + live(q.subrange(0, j))
            &&& out.frame == q[j].saved_frame
            &&& out.freed@ == opt_seq(self.deferred()) + dead_stacks(q.subrange(0, j))
        } else {
            &&& next.running() is None
            &&& next.queue() == live(q)
            &&& out.frame == next.idle()
            &&& out.freed@ == opt_seq(self.deferred()) + dead_stacks(q)
        }
    }
}


proof fn lemma_first_runnable(q: Seq<Thread>, tick: u64, k: int)
    requires
        0 <= k <= q.len(),
        forall|i: int| 0 <= i < k ==> !runnable(#[trigger] q[i], tick),
        k < q.len() ==> runnable(q[k], tick),
    ensures
        first_runnable(q, tick) == k,
    decreases k,
{
    if k > 0 {
        let rest = q.subrange(1, q.len() as int);
        assert(!runnable(q[0], tick));
        assert forall|i: int| 0 <= i < k - 1 implies !runnable(#[trigger] rest[i], tick) by {
            assert(rest[i] == q[i + 1]);
        }
        if k < q.len() {
            assert(rest[k - 1] == q[k]);
        }
        lemma_first_runnable(rest, tick, k - 1);
    }
}

proof fn lemma_live_push(s: Seq<Thread>, t: Thread)
    ensures
        live(s.push(t)) == (if t.state is Terminated { live(s) } else { live(s).push(t) }),
        dead_stacks(s.push(t)) == (if t.state is Terminated { dead_stacks(s).push(t.stack) } else { dead_stacks(s) }),
{
    assert(s.push(t).drop_last() =~= s);
}

proof fn lemma_live_not_running(s: Seq<Thread>)
    requires
        forall|i: int| 0 <= i < s.len() ==> !(#[trigger] s[i].state is Running),
    ensures
        forall|i: int| 0 <= i < live(s).len() ==> !(#[trigger] live(s)[i].state is Running),
    decreases s.len(),
{
    if s.len() > 0 {
        lemma_live_not_running(s.drop_last());
    }
}

impl Scheduler {
    /// An empty scheduler: no threads, the executor context running.
    pub fn new() -> (s: Scheduler)
        ensures
            s.wf(),
            s.queue() == Seq::<Thread>::empty(),
            s.running() is None,
            s.idle() == 0,
            s.deferred() is None,
    {
        Scheduler { threads: VecDeque::new(), current: None, idle_frame: 0, deferred_dealloc: None }
    }

    /// The scheduling decision, taken on the interrupted `current_frame` at
    /// timer tick `tick`: release the stack deferred by the previous call,
    /// put the running thread back (or remember the executor's frame),
    /// then walk the queue once, dropping terminated threads, waking
    /// sleepers whose tick has come, and running the first ready one.
    pub fn schedule(&mut self, current_frame: u64, tick: u64) -> (out: ScheduleOutcome)
        requires
            old(self).wf(),
        ensures
            old(self).schedule_post(current_frame, tick, final(self), out),
            final(self).wf(),
    {
        let mut freed: Vec<StackRegion> = Vec::new();
        match self.deferred_dealloc.take() {
            Some(r) => freed.push(r),
            None => {},
        }
        let cur = self.current.take();
        match cur {
            Some(thread) => {
                let mut thread = thread;
                thread.saved_frame = current_frame;
                match thread.state {
                    ThreadState::Terminated => {
                        self.deferred_dealloc = Some(thread.stack);
                    },
                    ThreadState::Sleeping(_) => {
                        self.threads.push_back(thread);
                    },
                    _ => {
                        thread.state = ThreadState::Ready;
                        self.threads.push_back(thread);
                    },
                }
            },
            None => {
                self.idle_frame = current_frame;
            },
        }
        let ghost q = self.threads@;
        assert(q == requeued(old(self).queue(), old(self).running(), current_frame));
        assert(freed@ =~= opt_seq(old(self).deferred()) + dead_stacks(q.subrange(0, 0)));
        assert(self.threads@ =~= q.subrange(0, q.len() as int) + live(q.subrange(0, 0)));
        let len = self.threads.len();
        let mut k: usize = 0;
        while k < len
            invariant
                len == q.len(),
                0 <= k <= len,
                q == requeued(old(self).queue(), old(self).running(), current_frame),
                forall|i: int| 0 <= i < q.len() ==> !(#[trigger] q[i].state is Running),
                self.threads@ == q.subrange(k as int, len as int) + live(q.subrange(0, k as int)),
                freed@ == opt_seq(old(self).deferred()) + dead_stacks(q.subrange(0, k as int)),
                forall|i: int| 0 <= i < k ==> !runnable(#[trigger] q[i], tick),
                self.current is None,
                self.idle_frame == (if old(self).running() is None { current_frame } else { old(self).idle() }),
                self.deferred_dealloc == (match old(self).running() {
                    Some(t) => if t.state is Terminated { Some(t.stack) } else { None },
                    None => None,
                }),
            decreases len - k,
        {
            let ghost before = self.threads@;
            let popped = self.threads.pop_front();
            assert(before[0] == q[k as int]);
            let mut thread = match popped {
                Some(t) => t,
                None => {
                    assert(false);
                    return ScheduleOutcome { frame: self.idle_frame, freed };
                },
            };
            proof {
                assert(q.subrange(0, k + 1) =~= q.subrange(0, k as int).push(q[k as int]));
                lemma_live_push(q.subrange(0, k as int), q[k as int]);
            }
            if thread.state == ThreadState::Terminated {
                freed.push(thread.stack);
                k = k + 1;
                proof {
                    assert(self.threads@ =~= q.subrange(k as int, len as int) + live(q.subrange(0, k as int)));
                }
                continue;
            }
            match thread.state {
                ThreadState::Sleeping(wake_tick) => {
                    if tick >= wake_tick {
                        thread.state = ThreadState::Ready;
                    }
                },
                _ => {},
            }
            if thread.state == ThreadState::Ready {
                proof {
                    lemma_first_runnable(q, tick, k as int);
                    lemma_live_not_running(q.subrange(0, k as int));
                    assert(self.threads@ =~= q.subrange(k + 1, len as int) + live(q.subrange(0, k as int)));
                }
                let frame = thread.saved_frame;
                thread.state = ThreadState::Running;
                self.current = Some(thread);
                return ScheduleOutcome { frame, freed };
            }
            self.threads.push_back(thread);
            k = k + 1;
            proof {
                assert(self.threads@ =~= q.subrange(k as int, len as int) + live(q.subrange(0, k as int)));
            }
        }
        proof {
            lemma_first_runnable(q, tick, len as int);
            assert(q.subrange(0, len as int) =~= q);
            assert(self.threads@ =~= live(q));
            lemma_live_not_running(q);
        }
        ScheduleOutcome { frame: self.idle_frame, freed }
    }
}


/// `q` with every thread of pid `pid` marked terminated.
pub open spec fn killed(q: Seq<Thread>, pid: u64) -> Seq<Thread> {
    q.map_values(|t: Thread| if t.pid == pid { with_state(t, ThreadState::Terminated) } else { t })
}

/// A new thread as `spawn_thread` queues it.
pub open spec fn new_thread(pid: u64, name: String, parent_pid: Option<u64>, stack: StackRegion) -> Thread {
    Thread {
        pid,
        name,
        state: ThreadState::Ready,
        parent_pid,
        stack,
        saved_frame: (stack.bottom + stack.size - FRAME_BYTES) as u64,
    }
}

/// What the caller of `spawn_thread` writes into the new stack: `frame` at
/// address `frame_addr`.
pub struct SpawnedThread {
    pub pid: u64,
    pub frame: InterruptFrame,
    pub frame_addr: u64,
}

impl Thread {
    /// A ready thread whose saved frame sits at the top of `stack`.
    pub fn new(pid: u64, name: String, parent_pid: Option<u64>, stack: StackRegion) -> (t: Thread)
        requires
            stack.bottom + stack.size <= u64::MAX,
            stack.size >= FRAME_BYTES,
        ensures
            t == new_thread(pid, name, parent_pid, stack),
    {
        let top = stack.bottom + stack.size as u64;
        Thread { pid, name, state: ThreadState::Ready, parent_pid, stack, saved_frame: top - FRAME_BYTES }
    }
}

impl Scheduler {
    /// Appends `t` to the ready queue.
    pub fn add_thread(&mut self, t: Thread)
        requires
            old(self).wf(),
            !(t.state is Running),
        ensures
            final(self).wf(),
            final(self).queue() == old(self).queue().push(t),
            final(self).running() == old(self).running(),
            final(self).idle() == old(self).idle(),
            final(self).deferred() == old(self).deferred(),
    {
        self.threads.push_back(t);
    }

    /// Pid of the running thread, if a thread runs.
    pub fn current_pid(&self) -> (r: Option<u64>)
        ensures
            r == (match self.running() {
                Some(t) => Some(t.pid),
                None => None,
            }),
    {
        match &self.current {
            Some(t) => Some(t.pid),
            None => None,
        }
    }

    /// Gives the running thread state `st`; returns its pid.
    pub fn set_current_state(&mut self, st: ThreadState) -> (r: Option<u64>)
        requires
            old(self).wf(),
        ensures
            final(self).wf(),
            final(self).queue() == old(self).queue(),
            final(self).idle() == old(self).idle(),
            final(self).deferred() == old(self).deferred(),
            match old(self).running() {
                Some(t) => r == Some(t.pid) && final(self).running() == Some(with_state(t, st)),
                None => r is None && final(self).running() is None,
            },
    {
        let cur = self.current.take();
        match cur {
            Some(t) => {
                let mut t = t;
                t.state = st;
                let pid = t.pid;
                self.current = Some(t);
                Some(pid)
            },
            None => None,
        }
    }

    /// Marks the thread `pid` terminated, whether it runs or waits; its stack
    /// is released by a later decision. Returns whether it was found.
    pub fn kill(&mut self, pid: u64) -> (found: bool)
        requires
            old(self).wf(),
        ensures
            final(self).wf(),
            final(self).idle() == old(self).idle(),
            final(self).deferred() == old(self).deferred(),
            match old(self).running() {
                Some(t) if t.pid == pid => {
                    &&& found
                    &&& final(self).running() == Some(with_state(t, ThreadState::Terminated))
                    &&& final(self).queue() == old(self).queue()
                },
                _ => {
                    &&& found == exists|i: int| 0 <= i < old(self).queue().len() && (#[trigger] old(self).queue()[i]).pid == pid
                    &&& final(self).running() == old(self).running()
                    &&& final(self).queue() == killed(old(self).queue(), pid)
                },
            },
    {
        let cur = self.current.take();
        match cur {
            Some(t) => {
                let mut t = t;
                if t.pid == pid {
                    t.state = ThreadState::Terminated;
                    self.current = Some(t);
                    return true;
                }
                self.current = Some(t);
            },
            None => {},
        }
        let ghost q = self.threads@;
        let n = self.threads.len();
        let mut found = false;
        let mut k: usize = 0;
        assert(self.threads@ =~= q.subrange(0, n as int) + killed(q.subrange(0, 0), pid));
        while k < n
            invariant
                n == q.len(),
                0 <= k <= n,
                q == old(self).queue(),
                forall|i: int| 0 <= i < q.len() ==> !(#[trigger] q[i].state is Running),
                self.threads@ == q.subrange(k as int, n as int) + killed(q.subrange(0, k as int), pid),
                found == exists|i: int| 0 <= i < k && (#[trigger] q[i]).pid == pid,
                self.current == old(self).running(),
                self.idle_frame == old(self).idle(),
                self.deferred_dealloc == old(self).deferred(),
            decreases n - k,
        {
            let ghost before = self.threads@;
            let popped = self.threads.pop_front();
            assert(before[0] == q[k as int]);
            let mut t = match popped {
                Some(t) => t,
                None => {
                    assert(false);
                    return found;
                },
            };
            if t.pid == pid {
                t.state = ThreadState::Terminated;
                found = true;
            }
            self.threads.push_back(t);
            proof {
                assert(killed(q.subrange(0, k + 1), pid) =~= killed(q.subrange(0, k as int), pid).push(
                    if q[k as int].pid == pid { with_state(q[k as int], ThreadState::Terminated) } else { q[k as int] }));
            }
            k = k + 1;
            proof {
                assert(self.threads@ =~= q.subrange(k as int, n as int) + killed(q.subrange(0, k as int), pid));
            }
        }
        proof {
            assert(q.subrange(0, n as int) =~= q);
            assert(self.threads@ =~= killed(q, pid));
        }
        found
    }
}

/// A new scheduler, with no threads yet.
pub fn init() -> (r: Option<Scheduler>)
    ensures
        r matches Some(s) && s.wf() && s.queue().len() == 0 && s.running() is None && s.deferred() is None,
{
    Some(Scheduler::new())
}

/// Whether the scheduler has been initialized.
pub fn is_enabled(slot: &Option<Scheduler>) -> (r: bool)
    ensures
        r == slot is Some,
{
    slot.is_some()
}

/// The timer hook: the decision of `Scheduler::schedule`, or `None` when
/// there is no scheduler yet, in which case the interrupted context resumes.
/// (When the caller cannot take the scheduler's lock it does not call this.)
pub fn try_schedule(slot: &mut Option<Scheduler>, current_frame: u64, tick: u64) -> (r: Option<ScheduleOutcome>)
    requires
        *old(slot) matches Some(s) ==> s.wf(),
    ensures
        match *old(slot) {
            None => r is None && *final(slot) is None,
            Some(s) => match (r, *final(slot)) {
                (Some(out), Some(s2)) => s.schedule_post(current_frame, tick, &s2, out) && s2.wf(),
                _ => false,
            },
        },
{
    match slot {
        Some(s) => Some(s.schedule(current_frame, tick)),
        None => None,
    }
}

/// Next pid, from the counter shared with tasks.
pub fn alloc_thread_id(ids: &mut PidCounter) -> (r: u64)
    requires
        old(ids).next_id() < u64::MAX,
    ensures
        r == old(ids).next_id(),
        final(ids).next_id() == old(ids).next_id() + 1,
{
    ids.next_task_id().as_u64()
}

/// Registers a new thread on `stack`: allocates its pid, records it in the
/// process table, and queues it. The caller writes the returned frame at
/// the returned address before the thread can be scheduled.
pub fn spawn_thread(
    sched: &mut Scheduler,
    table: &mut ProcessTable,
    ids: &mut PidCounter,
    name: String,
    entry: u64,
    arg: u64,
    wrapper: u64,
    parent_pid: Option<u64>,
    stack: StackRegion,
) -> (r: SpawnedThread)
    requires
        old(sched).wf(),
        old(table).wf(),
        old(ids).next_id() < u64::MAX,
        stack.bottom + stack.size <= u64::MAX,
        stack.size >= FRAME_BYTES,
    ensures
        r.pid == old(ids).next_id(),
        final(ids).next_id() == old(ids).next_id() + 1,
        r.frame == spec_initial_frame(entry, arg, wrapper, (stack.bottom + stack.size) as u64),
        r.frame_addr == stack.bottom + stack.size - FRAME_BYTES,
        final(table).wf(),
        final(table)@ == old(table)@.insert(r.pid, fresh_process(TaskId(r.pid), name, parent_pid, true)),
        final(sched).wf(),
        final(sched).queue() == old(sched).queue().push(new_thread(r.pid, name, parent_pid, stack)),
        final(sched).running() == old(sched).running(),
        final(sched).idle() == old(sched).idle(),
        final(sched).deferred() == old(sched).deferred(),
{
    let pid = alloc_thread_id(ids);
    let top = stack.bottom + stack.size as u64;
    let frame = initial_frame(entry, arg, wrapper, top);
    let frame_addr = initial_frame_addr(top);
    let thread = Thread::new(pid, name.clone(), parent_pid, stack);
    table.register_thread(pid, name, parent_pid);
    sched.add_thread(thread);
    SpawnedThread { pid, frame, frame_addr }
}

/// Marks the running thread terminated with exit code 0, in the scheduler
/// and in the process table. Returns its pid (none if no thread runs).
pub fn exit_current_thread(sched: &mut Scheduler, table: &mut ProcessTable) -> (r: Option<u64>)
    requires
        old(sched).wf(),
        old(table).wf(),
    ensures
        final(sched).wf(),
        final(table).wf(),
        final(sched).queue() == old(sched).queue(),
        final(sched).idle() == old(sched).idle(),
        final(sched).deferred() == old(sched).deferred(),
        match old(sched).running() {
            Some(t) => {
                &&& r == Some(t.pid)
                &&& final(sched).running() == Some(with_state(t, ThreadState::Terminated))
                &&& final(table)@ == (if old(table)@.contains_key(t.pid) {
                    old(table)@.insert(t.pid, terminated(old(table)@[t.pid], EXIT_CLEAN))
                } else {
                    old(table)@
                })
            },
            None => r is None && final(sched).running() is None && final(table)@ == old(table)@,
        },
{
    let pid = sched.set_current_state(ThreadState::Terminated);
    match pid {
        Some(p) => table.terminate(p, EXIT_CLEAN),
        None => {},
    }
    pid
}

/// Kills thread `pid`: marks it terminated in the scheduler and, if it was
/// found there, with exit code 1 in the process table.
pub fn kill_thread(sched: &mut Scheduler, table: &mut ProcessTable, pid: Pid) -> (found: bool)
    requires
        old(sched).wf(),
        old(table).wf(),
    ensures
        final(sched).wf(),
        final(table).wf(),
        final(sched).idle() == old(sched).idle(),
        final(sched).deferred() == old(sched).deferred(),
        found == ((old(sched).running() matches Some(t) && t.pid == pid)
            || exists|i: int| 0 <= i < old(sched).queue().len() && (#[trigger] old(sched).queue()[i]).pid == pid),
        final(table)@ == (if found && old(table)@.contains_key(pid) {
            old(table)@.insert(pid, terminated(old(table)@[pid], EXIT_KILLED))
        } else {
            old(table)@
        }),
        match old(sched).running() {
            Some(t) if t.pid == pid => {
                &&& final(sched).running() == Some(with_state(t, ThreadState::Terminated))
                &&& final(sched).queue() == old(sched).queue()
            },
            _ => {
                &&& final(sched).running() == old(sched).running()
                &&& final(sched).queue() == killed(old(sched).queue(), pid)
            },
        },
{
    let found = sched.kill(pid);
    if found {
        table.terminate(pid, EXIT_KILLED);
    }
    found
}

/// Whether `pid` names a thread (as opposed to a task) in the table.
pub fn is_thread(table: &ProcessTable, pid: Pid) -> (r: bool)
    ensures
        r == (table@.contains_key(pid) && table@[pid].is_thread),
{
    match table.get(pid) {
        Some(p) => p.is_thread,
        None => false,
    }
}

/// Ends a sleep that was to last until tick `wake`, if tick `now` has
/// reached it: the process table shows thread `pid` ready again (unless it
/// terminated meanwhile). Returns whether the sleep is over.
pub fn end_sleep(table: &mut ProcessTable, pid: Pid, now: u64, wake: u64) -> (done: bool)
    requires
        old(table).wf(),
    ensures
        final(table).wf(),
        done == (now >= wake),
        final(table)@ == (if done && old(table)@.contains_key(pid) {
            old(table)@.insert(pid, crate::process::after_set_state(old(table)@[pid], crate::process::ProcessState::Ready))
        } else {
            old(table)@
        }),
{
    if now < wake {
        return false;
    }
    table.set_state(pid, crate::process::ProcessState::Ready);
    true
}

/// Ticks needed to sleep `ms` milliseconds: rounded up to whole ticks.
pub fn sleep_ticks(ms: u64) -> (r: u64)
    ensures
        r == (ms + 9) / 10,
{
    ms / TICK_MS + if ms % TICK_MS != 0 { 1u64 } else { 0u64 }
}

/// Puts the running thread to sleep for `ms` milliseconds from tick `now`:
/// it becomes `Sleeping` until tick `now + ticks` (saturating), in the
/// scheduler and in the process table. Returns the wake tick, or `None`
/// when there is nothing to do (a zero duration, or no thread running).
pub fn sleep_ms(sched: &mut Scheduler, table: &mut ProcessTable, ms: u64, now: u64) -> (r: Option<u64>)
    requires
        old(sched).wf(),
        old(table).wf(),
    ensures
        final(sched).wf(),
        final(table).wf(),
        final(sched).queue() == old(sched).queue(),
        final(sched).idle() == old(sched).idle(),
        final(sched).deferred() == old(sched).deferred(),
        ({
            let ticks = (ms + 9) / 10;
            let wake = if now + ticks > u64::MAX { u64::MAX } else { (now + ticks) as u64 };
            match old(sched).running() {
                Some(t) if ticks > 0 => {
                    &&& r == Some(wake)
                    &&& final(sched).running() == Some(with_state(t, ThreadState::Sleeping(wake)))
                    &&& final(table)@ == (if old(table)@.contains_key(t.pid) {
                        old(table)@.insert(t.pid, crate::process::after_set_state(old(table)@[t.pid], crate::process::ProcessState::Sleeping))
                    } else {
                        old(table)@
                    })
                },
                _ => r is None && final(sched).running() == old(sched).running() && final(table)@ == old(table)@,
            }
        }),
{
    let ticks = sleep_ticks(ms);
    if ticks == 0 {
        return None;
    }
    let wake = now.saturating_add(ticks);
    if sched.current_pid().is_none() {
        return None;
    }
    let pid = sched.set_current_state(ThreadState::Sleeping(wake));
    match pid {
        Some(p) => {
            table.set_state(p, crate::process::ProcessState::Sleeping);
            Some(wake)
        },
        None => None,
    }
}


proof fn lemma_live_not_terminated(s: Seq<Thread>)
    ensures
        forall|i: int| 0 <= i < live(s).len() ==> !(#[trigger] live(s)[i].state is Terminated),
    decreases s.len(),
{
    if s.len() > 0 {
        lemma_live_not_terminated(s.drop_last());
    }
}

proof fn lemma_dead_stacks_contains(s: Seq<Thread>, i: int)
    requires
        0 <= i < s.len(),
        s[i].state is Terminated,
    ensures
        dead_stacks(s).contains(s[i].stack),
    decreases s.len(),
{
    let d = dead_stacks(s);
    if i == s.len() - 1 {
        assert(d.last() == s[i].stack);
    } else {
        lemma_dead_stacks_contains(s.drop_last(), i);
        let m = choose|m: int| 0 <= m < dead_stacks(s.drop_last()).len() && dead_stacks(s.drop_last())[m] == s[i].stack;
        assert(d[m] == s[i].stack);
    }
}

/// At most one thread runs: in a well-formed scheduler the only thread in
/// state `Running` can be the current one, and every decision keeps the
/// scheduler well-formed.
pub proof fn lemma_single_runner(s: &Scheduler)
    requires
        s.wf(),
    ensures
        forall|i: int| 0 <= i < s.all_threads().len() && (#[trigger] s.all_threads()[i]).state is Running
            ==> s.running() is Some && i == s.all_threads().len() - 1,
{
    assert forall|i: int| 0 <= i < s.all_threads().len() && (#[trigger] s.all_threads()[i]).state is Running
        implies s.running() is Some && i == s.all_threads().len() - 1 by {
        if i < s.queue().len() {
            assert(s.all_threads()[i] == s.queue()[i]);
        }
    }
}

/// A thread that terminated while running is not freed by the decision that
/// takes it off the CPU (the interrupt still runs on its stack): its stack
/// waits in the deferred slot and is the first one the next decision frees.
pub proof fn lemma_running_stack_freed_next(
    s0: &Scheduler, s1: &Scheduler, s2: &Scheduler,
    frame1: u64, tick1: u64, out1: ScheduleOutcome,
    frame2: u64, tick2: u64, out2: ScheduleOutcome,
)
    requires
        s0.wf(),
        s0.running() matches Some(t) && t.state is Terminated,
        s0.schedule_post(frame1, tick1, s1, out1),
        s1.schedule_post(frame2, tick2, s2, out2),
    ensures
        s1.deferred() == Some(s0.running()->0.stack),
        out2.freed@.len() >= 1 && out2.freed@[0] == s0.running()->0.stack,
{
}

/// A terminated thread waiting in the queue is freed by the first decision
/// that walks past it, and is no longer queued afterwards.
pub proof fn lemma_queued_stack_freed_now(s0: &Scheduler, s1: &Scheduler, frame: u64, tick: u64, out: ScheduleOutcome, i: int)
    requires
        s0.wf(),
        s0.schedule_post(frame, tick, s1, out),
        0 <= i < first_runnable(requeued(s0.queue(), s0.running(), frame), tick),
        i < requeued(s0.queue(), s0.running(), frame).len(),
        requeued(s0.queue(), s0.running(), frame)[i].state is Terminated,
    ensures
        out.freed@.contains(requeued(s0.queue(), s0.running(), frame)[i].stack),
        ({
            let q = requeued(s0.queue(), s0.running(), frame);
            let j = first_runnable(q, tick);
            forall|k: int| 0 <= k < live(q.subrange(0, j)).len() ==> !(#[trigger] live(q.subrange(0, j))[k].state is Terminated)
        }),
{
    let q = requeued(s0.queue(), s0.running(), frame);
    lemma_first_runnable_bound(q, tick);
    let j = first_runnable(q, tick);
    let pre = q.subrange(0, if j < q.len() { j } else { q.len() as int });
    assert(pre[i] == q[i]);
    lemma_dead_stacks_contains(pre, i);
    if j >= q.len() {
        assert(pre =~= q);
    }
    let d = dead_stacks(pre);
    let m = choose|m: int| 0 <= m < d.len() && d[m] == q[i].stack;
    assert(out.freed@[opt_seq(s0.deferred()).len() + m] == q[i].stack);
    lemma_live_not_terminated(q.subrange(0, j));
}

proof fn lemma_first_runnable_bound(q: Seq<Thread>, tick: u64)
    ensures
        0 <= first_runnable(q, tick) <= q.len(),
        forall|i: int| 0 <= i < first_runnable(q, tick) ==> !runnable(#[trigger] q[i], tick),
        first_runnable(q, tick) < q.len() ==> runnable(q[first_runnable(q, tick)], tick),
    decreases q.len(),
{
    if q.len() > 0 && !runnable(q[0], tick) {
        let rest = q.subrange(1, q.len() as int);
        lemma_first_runnable_bound(rest, tick);
        assert forall|i: int| 0 <= i < first_runnable(q, tick) implies !runnable(#[trigger] q[i], tick) by {
            if i > 0 {
                assert(q[i] == rest[i - 1]);
            }
        }
    }
}

/// Of two ready threads in the queue, the one enqueued first runs first:
/// the decision picks a thread at or before the earlier one.
pub proof fn lemma_fifo(s0: &Scheduler, s1: &Scheduler, frame: u64, tick: u64, out: ScheduleOutcome, a: int, b: int)
    requires
        s0.wf(),
        s0.schedule_post(frame, tick, s1, out),
        0 <= a < b < requeued(s0.queue(), s0.running(), frame).len(),
        requeued(s0.queue(), s0.running(), frame)[a].state is Ready,
        requeued(s0.queue(), s0.running(), frame)[b].state is Ready,
    ensures
        ({
            let q = requeued(s0.queue(), s0.running(), frame);
            exists|m: int| 0 <= m <= a && s1.running() == Some(with_state(#[trigger] q[m], ThreadState::Running))
        }),
{
    let q = requeued(s0.queue(), s0.running(), frame);
    lemma_first_runnable_bound(q, tick);
    let j = first_runnable(q, tick);
    assert(runnable(q[a], tick));
    assert(j <= a);
}

/// A sleeping thread does not run before its wake tick, and runs at the
/// first decision at or after it, provided no thread queued ahead of it can
/// run then.
pub proof fn lemma_boundary_tick(s0: &Scheduler, s1: &Scheduler, frame: u64, tick: u64, out: ScheduleOutcome, i: int, w: u64)
    requires
        s0.wf(),
        s0.schedule_post(frame, tick, s1, out),
        0 <= i < requeued(s0.queue(), s0.running(), frame).len(),
        requeued(s0.queue(), s0.running(), frame)[i].state == ThreadState::Sleeping(w),
    ensures
        ({
            let q = requeued(s0.queue(), s0.running(), frame);
            &&& tick < w ==> first_runnable(q, tick) != i
            &&& (tick >= w && forall|k: int| 0 <= k < i ==> !runnable(#[trigger] q[k], tick))
                ==> s1.running() == Some(with_state(q[i], ThreadState::Running))
        }),
{
    let q = requeued(s0.queue(), s0.running(), frame);
    lemma_first_runnable_bound(q, tick);
    if tick >= w && forall|k: int| 0 <= k < i ==> !runnable(#[trigger] q[k], tick) {
        lemma_first_runnable(q, tick, i);
    }
}

} // verus!
