//! Cooperative executor: which tasks exist, which are ready, and what each
//! poll outcome does to them and to the process table.
//!
//! The futures themselves stay with the caller, keyed by task id: the
//! executor hands out the id to poll next and is told whether the poll
//! completed.
use vstd::prelude::*;
use std::collections::{BTreeMap, VecDeque};
use crate::process::{after_set_state, fresh_process, terminated, Pid, Process, ProcessState, ProcessTable, EXIT_CLEAN, EXIT_KILLED};
use crate::task::TaskId;

verus! {

broadcast use vstd::laws_cmp::group_laws_cmp;

/// A request, queued from async code, to spawn the task `task_id` (whose
/// future the caller holds) as a process.
pub struct TaskSpawnRequest {
    pub task_id: TaskId,
    pub name: String,
    pub parent_pid: Option<Pid>,
}

pub struct Executor {
    tasks: BTreeMap<u64, ()>,
    ready_queue: VecDeque<u64>,
}

/// The table after `set_state(pid, s)`.
pub open spec fn table_set(t: Map<Pid, crate::process::Process>, pid: Pid, s: ProcessState) -> Map<Pid, crate::process::Process> {
    if t.contains_key(pid) { t.insert(pid, after_set_state(t[pid], s)) } else { t }
}

/// The table after `terminate(pid, code)`.
pub open spec fn table_terminate(t: Map<Pid, crate::process::Process>, pid: Pid, code: i32) -> Map<Pid, crate::process::Process> {
    if t.contains_key(pid) { t.insert(pid, terminated(t[pid], code)) } else { t }
}

/// Index of the first id of `q` that is in `tasks`, or `q.len()`.
pub open spec fn first_live(q: Seq<u64>, tasks: Set<u64>) -> int
    decreases q.len(),
{
    if q.len() == 0 {
        0
    } else if tasks.contains(q[0]) {
        0
    } else {
        1 + first_live(q.subrange(1, q.len() as int), tasks)
    }
}

proof fn lemma_first_live(q: Seq<u64>, tasks: Set<u64>, k: int)
    requires
        0 <= k <= q.len(),
        forall|i: int| 0 <= i < k ==> !tasks.contains(#[trigger] q[i]),
        k < q.len() ==> tasks.contains(q[k]),
    ensures
        first_live(q, tasks) == k,
    decreases k,
{
    if k > 0 {
        let rest = q.subrange(1, q.len() as int);
        assert(!tasks.contains(q[0]));
        assert forall|i: int| 0 <= i < k - 1 implies !tasks.contains(#[trigger] rest[i]) by {
            assert(rest[i] == q[i + 1]);
        }
        if k < q.len() {
            assert(rest[k - 1] == q[k]);
        }
        lemma_first_live(rest, tasks, k - 1);
    }
}

impl Executor {
    /// The ids of the tasks not yet finished or killed.
    pub closed spec fn tasks(&self) -> Set<u64> {
        self.tasks@.dom()
    }

    /// Ids waiting to be polled, front first.
    pub closed spec fn ready(&self) -> Seq<u64> {
        self.ready_queue@
    }

    pub fn new() -> (r: Executor)
        ensures
            r.tasks() == Set::<u64>::empty(),
            r.ready() == Seq::<u64>::empty(),
    {
        let r = Executor { tasks: BTreeMap::new(), ready_queue: VecDeque::new() };
        assert(r.tasks() =~= Set::<u64>::empty());
        r
    }

    /// Whether task `id` exists.
    pub fn has_task(&self, id: TaskId) -> (r: bool)
        ensures
            r == self.tasks().contains(id.id()),
    {
        self.tasks.contains_key(&id.as_u64())
    }

    /// Registers task `task_id` and makes it ready. An id is spawned once.
    pub fn spawn(&mut self, task_id: TaskId)
        requires
            !old(self).tasks().contains(task_id.id()),
        ensures
            final(self).tasks() == old(self).tasks().insert(task_id.id()),
            final(self).ready() == old(self).ready().push(task_id.id()),
    {
        let id = task_id.as_u64();
        self.tasks.insert(id, ());
        self.ready_queue.push_back(id);
    }

    /// Spawns task `task_id` and registers it in the process table as a
    /// task named `name`.
    pub fn spawn_process(&mut self, table: &mut ProcessTable, task_id: TaskId, name: String, parent_pid: Option<Pid>)
        requires
            !old(self).tasks().contains(task_id.id()),
            old(table).wf(),
        ensures
            final(self).tasks() == old(self).tasks().insert(task_id.id()),
            final(self).ready() == old(self).ready().push(task_id.id()),
            final(table).wf(),
            final(table)@ == old(table)@.insert(task_id.id(), fresh_process(task_id, name, parent_pid, false)),
    {
        self.spawn(task_id);
        table.register(task_id, name, parent_pid, false);
    }

    /// Kills task `pid`: drops it (its future is to be dropped by the caller)
    /// and marks it terminated with exit code 1.
    pub fn kill_task(&mut self, table: &mut ProcessTable, pid: Pid)
        requires
            old(table).wf(),
        ensures
            final(self).tasks() == old(self).tasks().remove(pid),
            final(self).ready() == old(self).ready(),
            final(table).wf(),
            final(table)@ == table_terminate(old(table)@, pid, EXIT_KILLED),
    {
        self.tasks.remove(&pid);
        assert(self.tasks() =~= old(self).tasks().remove(pid));
        table.terminate(pid, EXIT_KILLED);
    }

    /// A wake-up of task `id`: if it still exists it becomes ready again.
    pub fn wake(&mut self, table: &mut ProcessTable, id: TaskId)
        requires
            old(table).wf(),
        ensures
            final(self).tasks() == old(self).tasks(),
            final(table).wf(),
            if old(self).tasks().contains(id.id()) {
                &&& final(self).ready() == old(self).ready().push(id.id())
                &&& final(table)@ == table_set(old(table)@, id.id(), ProcessState::Ready)
            } else {
                &&& final(self).ready() == old(self).ready()
                &&& final(table)@ == old(table)@
            },
    {
        let pid = id.as_u64();
        if self.tasks.contains_key(&pid) {
            self.ready_queue.push_back(pid);
            table.set_state(pid, ProcessState::Ready);
        }
    }

    /// Takes the next ready id whose task still exists (ids of finished or
    /// killed tasks are dropped on the way) and marks it running.
    pub fn next_ready(&mut self, table: &mut ProcessTable) -> (r: Option<TaskId>)
        requires
            old(table).wf(),
        ensures
            final(self).tasks() == old(self).tasks(),
            final(table).wf(),
            ({
                let q = old(self).ready();
                let j = first_live(q, old(self).tasks());
                if j < q.len() {
                    &&& r == Some(TaskId(q[j]))
                    &&& final(self).ready() == q.subrange(j + 1, q.len() as int)
                    &&& final(table)@ == table_set(old(table)@, q[j], ProcessState::Running)
                } else {
                    &&& r is None
                    &&& final(self).ready() == Seq::<u64>::empty()
                    &&& final(table)@ == old(table)@
                }
            }),
    {
        let ghost q = self.ready_queue@;
        let ghost tasks = self.tasks();
        let ghost mut k: int = 0;
        loop
            invariant
                0 <= k <= q.len(),
                self.ready_queue@ == q.subrange(k, q.len() as int),
                self.tasks() == tasks,
                tasks == old(self).tasks(),
                q == old(self).ready(),
                table.wf(),
                table@ == old(table)@,
                forall|i: int| 0 <= i < k ==> !tasks.contains(#[trigger] q[i]),
            decreases q.len() - k,
        {
            let ghost before = self.ready_queue@;
            match self.ready_queue.pop_front() {
                Some(id) => {
                    assert(before[0] == q[k]);
                    if self.tasks.contains_key(&id) {
                        proof {
                            lemma_first_live(q, tasks, k);
                        }
                        table.set_state(id, ProcessState::Running);
                        return Some(TaskId::from_u64(id));
                    }
                    proof {
                        k = k + 1;
                    }
                    assert(self.ready_queue@ =~= q.subrange(k, q.len() as int));
                },
                None => {
                    proof {
                        lemma_first_live(q, tasks, k);
                    }
                    assert(self.ready_queue@ =~= Seq::<u64>::empty());
                    return None;
                },
            }
        }
    }

    /// Records the outcome of polling task `id`: a completed task is removed
    /// and terminates with exit code 0; a pending one is blocked until woken.
    pub fn finish_poll(&mut self, table: &mut ProcessTable, id: TaskId, completed: bool)
        requires
            old(table).wf(),
        ensures
            final(self).ready() == old(self).ready(),
            final(table).wf(),
            if completed {
                &&& final(self).tasks() == old(self).tasks().remove(id.id())
                &&& final(table)@ == table_terminate(old(table)@, id.id(), EXIT_CLEAN)
            } else {
                &&& final(self).tasks() == old(self).tasks()
                &&& final(table)@ == table_set(old(table)@, id.id(), ProcessState::Blocked)
            },
    {
        let pid = id.as_u64();
        if completed {
            self.tasks.remove(&pid);
            assert(self.tasks() =~= old(self).tasks().remove(pid));
            table.terminate(pid, EXIT_CLEAN);
        } else {
            table.set_state(pid, ProcessState::Blocked);
        }
    }

    /// Polls every ready task once, through `poll`, which returns whether
    /// the task's future completed. Wake-ups raised while polling are not
    /// seen here: they are handed to the next round.
    pub fn poll_ready_tasks<F: Fn(TaskId) -> bool>(&mut self, table: &mut ProcessTable, poll: &F)
        requires
            old(table).wf(),
            forall|id: TaskId| poll.requires((id,)),
        ensures
            final(table).wf(),
            polled(old(self).tasks(), old(self).ready(), old(table)@, final(self).tasks(), final(self).ready(), final(table)@, *poll),
    {
        let ghost tasks0 = self.tasks();
        let ghost ready0 = self.ready();
        let ghost t0 = table@;
        let ghost mut done: Set<u64> = Set::empty();
        loop
            invariant
                table.wf(),
                forall|id: TaskId| poll.requires((id,)),
                tasks0 == old(self).tasks(),
                ready0 == old(self).ready(),
                t0 == old(table)@,
                table@.dom() == t0.dom(),
                self.tasks().subset_of(tasks0),
                forall|id: u64| #[trigger] done.contains(id) ==> ready0.contains(id) && tasks0.contains(id),
                forall|id: u64| #![trigger self.tasks().contains(id)] #![trigger table@[id]] #![trigger done.contains(id)]
                    !done.contains(id) ==> (self.tasks().contains(id) == tasks0.contains(id)
                        && (t0.contains_key(id) ==> table@[id] == t0[id])),
                forall|id: u64| #![trigger self.tasks().contains(id)] #![trigger table@[id]] #![trigger done.contains(id)]
                    done.contains(id) ==> outcome(id, t0, self.tasks(), table@, *poll),
                forall|id: u64| #![trigger ready0.contains(id)]
                    ready0.contains(id) && tasks0.contains(id) && !done.contains(id) ==> self.ready().contains(id),
                forall|i: int| 0 <= i < self.ready().len() ==> ready0.contains(#[trigger] self.ready()[i]),
            decreases self.ready().len(),
        {
            let ghost before = self.ready();
            let ghost tasks_b = self.tasks();
            let ghost table_b = table@;
            let next = self.next_ready(table);
            match next {
                Some(id) => {
                    let ghost k = id.id();
                    let ghost j = first_live(before, tasks_b);
                    proof {
                        lemma_first_live_bound(before, tasks_b);
                        assert forall|x: u64| ready0.contains(x) && tasks0.contains(x) && !done.contains(x) && x != k
                            implies #[trigger] self.ready().contains(x) by {
                            let m = choose|m: int| 0 <= m < before.len() && before[m] == x;
                            assert(tasks_b.contains(x));
                            if m < j {
                                assert(!tasks_b.contains(before[m]));
                            }
                            assert(m > j);
                            assert(self.ready()[m - j - 1] == x);
                        }
                        assert(before[j] == k);
                        assert(ready0.contains(k));
                        assert forall|i: int| 0 <= i < self.ready().len() implies ready0.contains(#[trigger] self.ready()[i]) by {
                            assert(self.ready()[i] == before[i + j + 1]);
                        }
                    }
                    let completed = poll(id);
                    self.finish_poll(table, id, completed);
                    proof {
                        if t0.contains_key(k) {
                            lemma_state_steps(t0[k]);
                        }
                        done = done.insert(k);
                        assert forall|x: u64| #[trigger] ready0.contains(x) && tasks0.contains(x) && !done.contains(x)
                            implies self.ready().contains(x) by {
                            assert(x != k);
                        }
                    }
                },
                None => {
                    proof {
                        lemma_first_live_bound(before, tasks_b);
                        assert forall|x: u64| ready0.contains(x) && tasks0.contains(x) implies #[trigger] done.contains(x) by {
                            if !done.contains(x) {
                                assert(before.contains(x));
                                let m = choose|m: int| 0 <= m < before.len() && before[m] == x;
                                assert(!tasks_b.contains(before[m]));
                            }
                        }
                        assert(table@ =~= table_b);
                    }
                    return;
                },
            }
        }
    }

    /// Spawns each requested task in order, as `spawn_process` does; a
    /// request for an id that exists already is dropped.
    pub fn drain_spawns(&mut self, table: &mut ProcessTable, spawns: &mut VecDeque<TaskSpawnRequest>)
        requires
            old(table).wf(),
        ensures
            final(table).wf(),
            final(spawns)@ == Seq::<TaskSpawnRequest>::empty(),
            (final(self).tasks(), final(self).ready(), final(table)@)
                == after_spawns((old(self).tasks(), old(self).ready(), old(table)@), old(spawns)@),
    {
        let ghost reqs = spawns@;
        let ghost st0 = (self.tasks(), self.ready(), table@);
        let ghost mut n: int = 0;
        assert(reqs.subrange(0, 0) =~= Seq::<TaskSpawnRequest>::empty());
        assert(spawns@ =~= reqs.subrange(0, reqs.len() as int));
        loop
            invariant
                table.wf(),
                0 <= n <= reqs.len(),
                reqs == old(spawns)@,
                st0 == (old(self).tasks(), old(self).ready(), old(table)@),
                spawns@ == reqs.subrange(n, reqs.len() as int),
                (self.tasks(), self.ready(), table@) == after_spawns(st0, reqs.subrange(0, n)),
            ensures
                table.wf(),
                spawns@ == Seq::<TaskSpawnRequest>::empty(),
                (self.tasks(), self.ready(), table@) == after_spawns(st0, reqs),
            decreases reqs.len() - n,
        {
            let ghost before = spawns@;
            match spawns.pop_front() {
                Some(req) => {
                    assert(before[0] == reqs[n]);
                    proof {
                        assert(reqs.subrange(0, n + 1).drop_last() =~= reqs.subrange(0, n));
                    }
                    if !self.has_task(req.task_id) {
                        self.spawn_process(table, req.task_id, req.name, req.parent_pid);
                    }
                    proof {
                        n = n + 1;
                    }
                    assert(spawns@ =~= reqs.subrange(n, reqs.len() as int));
                },
                None => {
                    assert(reqs.subrange(0, n) =~= reqs);
                    assert(spawns@ =~= Seq::<TaskSpawnRequest>::empty());
                    break;
                },
            }
        }
    }

    /// Kills each requested pid in order, as `kill_task` does.
    pub fn drain_kills(&mut self, table: &mut ProcessTable, kills: &mut VecDeque<Pid>)
        requires
            old(table).wf(),
        ensures
            final(table).wf(),
            final(kills)@ == Seq::<Pid>::empty(),
            (final(self).tasks(), final(self).ready(), final(table)@)
                == after_kills((old(self).tasks(), old(self).ready(), old(table)@), old(kills)@),
    {
        let ghost ps = kills@;
        let ghost st0 = (self.tasks(), self.ready(), table@);
        let ghost mut n: int = 0;
        assert(ps.subrange(0, 0) =~= Seq::<Pid>::empty());
        assert(kills@ =~= ps.subrange(0, ps.len() as int));
        loop
            invariant
                table.wf(),
                0 <= n <= ps.len(),
                ps == old(kills)@,
                st0 == (old(self).tasks(), old(self).ready(), old(table)@),
                kills@ == ps.subrange(n, ps.len() as int),
                (self.tasks(), self.ready(), table@) == after_kills(st0, ps.subrange(0, n)),
            ensures
                table.wf(),
                kills@ == Seq::<Pid>::empty(),
                (self.tasks(), self.ready(), table@) == after_kills(st0, ps),
            decreases ps.len() - n,
        {
            let ghost before = kills@;
            match kills.pop_front() {
                Some(pid) => {
                    assert(before[0] == ps[n]);
                    proof {
                        assert(ps.subrange(0, n + 1).drop_last() =~= ps.subrange(0, n));
                    }
                    self.kill_task(table, pid);
                    proof {
                        n = n + 1;
                    }
                    assert(kills@ =~= ps.subrange(n, ps.len() as int));
                },
                None => {
                    assert(ps.subrange(0, n) =~= ps);
                    assert(kills@ =~= Seq::<Pid>::empty());
                    break;
                },
            }
        }
    }

    /// Makes each woken task ready in order, as `wake` does.
    pub fn drain_wakes(&mut self, table: &mut ProcessTable, wakes: &mut VecDeque<TaskId>)
        requires
            old(table).wf(),
        ensures
            final(table).wf(),
            final(wakes)@ == Seq::<TaskId>::empty(),
            (final(self).tasks(), final(self).ready(), final(table)@)
                == after_wakes((old(self).tasks(), old(self).ready(), old(table)@), old(wakes)@),
    {
        let ghost ws = wakes@;
        let ghost st0 = (self.tasks(), self.ready(), table@);
        let ghost mut n: int = 0;
        assert(ws.subrange(0, 0) =~= Seq::<TaskId>::empty());
        assert(wakes@ =~= ws.subrange(0, ws.len() as int));
        loop
            invariant
                table.wf(),
                0 <= n <= ws.len(),
                ws == old(wakes)@,
                st0 == (old(self).tasks(), old(self).ready(), old(table)@),
                wakes@ == ws.subrange(n, ws.len() as int),
                (self.tasks(), self.ready(), table@) == after_wakes(st0, ws.subrange(0, n)),
            ensures
                table.wf(),
                wakes@ == Seq::<TaskId>::empty(),
                (self.tasks(), self.ready(), table@) == after_wakes(st0, ws),
            decreases ws.len() - n,
        {
            let ghost before = wakes@;
            match wakes.pop_front() {
                Some(id) => {
                    assert(before[0] == ws[n]);
                    proof {
                        assert(ws.subrange(0, n + 1).drop_last() =~= ws.subrange(0, n));
                    }
                    self.wake(table, id);
                    proof {
                        n = n + 1;
                    }
                    assert(wakes@ =~= ws.subrange(n, ws.len() as int));
                },
                None => {
                    assert(ws.subrange(0, n) =~= ws);
                    assert(wakes@ =~= Seq::<TaskId>::empty());
                    break;
                },
            }
        }
    }

    /// One round of the executor loop: drain the spawn mailbox, then the
    /// kill mailbox, then the wake mailbox into the ready queue, then poll
    /// every ready task once.
    pub fn run_until_idle<F: Fn(TaskId) -> bool>(
        &mut self,
        table: &mut ProcessTable,
        spawns: &mut VecDeque<TaskSpawnRequest>,
        kills: &mut VecDeque<Pid>,
        wakes: &mut VecDeque<TaskId>,
        poll: &F,
    )
        requires
            old(table).wf(),
            forall|id: TaskId| poll.requires((id,)),
        ensures
            final(table).wf(),
            final(spawns)@ == Seq::<TaskSpawnRequest>::empty(),
            final(kills)@ == Seq::<Pid>::empty(),
            final(wakes)@ == Seq::<TaskId>::empty(),
            ({
                let s = after_wakes(after_kills(after_spawns((old(self).tasks(), old(self).ready(), old(table)@), old(spawns)@),
                    old(kills)@), old(wakes)@);
                polled(s.0, s.1, s.2, final(self).tasks(), final(self).ready(), final(table)@, *poll)
            }),
    {
        self.drain_spawns(table, spawns);
        self.drain_kills(table, kills);
        self.drain_wakes(table, wakes);
        self.poll_ready_tasks(table, poll);
    }
}

/// Executor state as values: the live task ids, the ready queue, and the
/// process table.
pub type ExecState = (Set<u64>, Seq<u64>, Map<Pid, Process>);

/// The state after the spawn requests `reqs`, in order.
pub open spec fn after_spawns(st: ExecState, reqs: Seq<TaskSpawnRequest>) -> ExecState
    decreases reqs.len(),
{
    if reqs.len() == 0 {
        st
    } else {
        let s = after_spawns(st, reqs.drop_last());
        let r = reqs.last();
        let id = r.task_id.id();
        if s.0.contains(id) {
            s
        } else {
            (s.0.insert(id), s.1.push(id), s.2.insert(id, fresh_process(r.task_id, r.name, r.parent_pid, false)))
        }
    }
}

/// The state after killing the pids `ps`, in order: each leaves the task
/// set and terminates with exit code 1.
pub open spec fn after_kills(st: ExecState, ps: Seq<Pid>) -> ExecState
    decreases ps.len(),
{
    if ps.len() == 0 {
        st
    } else {
        let s = after_kills(st, ps.drop_last());
        (s.0.remove(ps.last()), s.1, table_terminate(s.2, ps.last(), EXIT_KILLED))
    }
}

/// The state after the wake-ups `ws`, in order: each live task joins the
/// ready queue and is marked ready.
pub open spec fn after_wakes(st: ExecState, ws: Seq<TaskId>) -> ExecState
    decreases ws.len(),
{
    if ws.len() == 0 {
        st
    } else {
        let s = after_wakes(st, ws.drop_last());
        let id = ws.last().id();
        if s.0.contains(id) { (s.0, s.1.push(id), table_set(s.2, id, ProcessState::Ready)) } else { s }
    }
}

/// What polling did to task `id`: still there, its poll returned pending
/// and it is blocked; gone, its poll completed and it terminated with exit
/// code 0.
pub open spec fn outcome<F: Fn(TaskId) -> bool>(id: u64, t0: Map<Pid, Process>, tasks: Set<u64>, t: Map<Pid, Process>, poll: F) -> bool {
    if tasks.contains(id) {
        poll.ensures((TaskId(id),), false) && (t0.contains_key(id) ==> t[id] == after_set_state(t0[id], ProcessState::Blocked))
    } else {
        poll.ensures((TaskId(id),), true) && (t0.contains_key(id) ==> t[id] == terminated(t0[id], EXIT_CLEAN))
    }
}

/// A polling round from (`tasks0`, `ready0`, `t0`) to (`tasks1`, `ready1`,
/// `t1`): the ready queue is emptied; every ready live task was polled with
/// the outcome `outcome` states; every other task and table entry is as it
/// was.
pub open spec fn polled<F: Fn(TaskId) -> bool>(
    tasks0: Set<u64>, ready0: Seq<u64>, t0: Map<Pid, Process>,
    tasks1: Set<u64>, ready1: Seq<u64>, t1: Map<Pid, Process>, poll: F,
) -> bool {
    &&& ready1 == Seq::<u64>::empty()
    &&& t1.dom() == t0.dom()
    &&& tasks1.subset_of(tasks0)
    &&& forall|id: u64| #![trigger tasks1.contains(id)] #![trigger t1[id]]
        if ready0.contains(id) && tasks0.contains(id) {
            outcome(id, t0, tasks1, t1, poll)
        } else {
            tasks1.contains(id) == tasks0.contains(id) && (t0.contains_key(id) ==> t1[id] == t0[id])
        }
}

proof fn lemma_state_steps(p: Process)
    ensures
        after_set_state(after_set_state(p, ProcessState::Running), ProcessState::Blocked) == after_set_state(p, ProcessState::Blocked),
        terminated(after_set_state(p, ProcessState::Running), EXIT_CLEAN) == terminated(p, EXIT_CLEAN),
        after_set_state(after_set_state(after_set_state(p, ProcessState::Blocked), ProcessState::Running), ProcessState::Blocked)
            == after_set_state(p, ProcessState::Blocked),
        terminated(after_set_state(after_set_state(p, ProcessState::Blocked), ProcessState::Running), EXIT_CLEAN) == terminated(p, EXIT_CLEAN),
{
}

proof fn lemma_first_live_bound(q: Seq<u64>, tasks: Set<u64>)
    ensures
        0 <= first_live(q, tasks) <= q.len(),
        first_live(q, tasks) < q.len() ==> tasks.contains(q[first_live(q, tasks)]),
        forall|i: int| 0 <= i < first_live(q, tasks) ==> !tasks.contains(#[trigger] q[i]),
    decreases q.len(),
{
    if q.len() > 0 && !tasks.contains(q[0]) {
        let rest = q.subrange(1, q.len() as int);
        lemma_first_live_bound(rest, tasks);
        assert forall|i: int| 0 <= i < first_live(q, tasks) implies !tasks.contains(#[trigger] q[i]) by {
            if i > 0 {
                assert(q[i] == rest[i - 1]);
            }
        }
    }
}

} // verus!
