//! The process table: one directory entry per thread or task, keyed by pid.
use vstd::prelude::*;
use std::collections::BTreeMap;
use crate::task::TaskId;

verus! {

broadcast use vstd::laws_cmp::group_laws_cmp;

/// Process id, shared by threads and tasks.
pub type Pid = u64;

/// Pid of the shell, the first task spawned.
pub const SHELL_PID: Pid = 1;

/// Exit code of a task that ran to completion.
pub const EXIT_CLEAN: i32 = 0;

/// Exit code of a killed thread or task.
pub const EXIT_KILLED: i32 = 1;

#[derive(Clone, Copy, PartialEq, Eq, Structural, Debug)]
pub enum ProcessState {
    Ready,
    Running,
    Sleeping,
    Blocked,
    Terminated,
}

impl ProcessState {
    /// The state's name as the shell prints it.
    pub fn as_str(&self) -> (r: &'static str)
        ensures
            r@ == (match self {
                ProcessState::Ready => "Ready"@,
                ProcessState::Running => "Running"@,
                ProcessState::Sleeping => "Sleeping"@,
                ProcessState::Blocked => "Blocked"@,
                ProcessState::Terminated => "Terminated"@,
            }),
    {
        match self {
            ProcessState::Ready => "Ready",
            ProcessState::Running => "Running",
            ProcessState::Sleeping => "Sleeping",
            ProcessState::Blocked => "Blocked",
            ProcessState::Terminated => "Terminated",
        }
    }
}

pub struct Process {
    pub task_id: TaskId,
    pub name: String,
    pub state: ProcessState,
    pub parent_pid: Option<Pid>,
    /// Set exactly when the process has terminated.
    pub exit_code: Option<i32>,
    pub is_thread: bool,
}

/// The entry `register` creates.
pub open spec fn fresh_process(task_id: TaskId, name: String, parent_pid: Option<Pid>, is_thread: bool) -> Process {
    Process { task_id, name, state: ProcessState::Ready, parent_pid, exit_code: None, is_thread }
}

/// `p` with its state replaced.
pub open spec fn with_process_state(p: Process, s: ProcessState) -> Process {
    Process { task_id: p.task_id, name: p.name, state: s, parent_pid: p.parent_pid, exit_code: p.exit_code, is_thread: p.is_thread }
}

/// `p` terminated with `code`.
pub open spec fn terminated(p: Process, code: i32) -> Process {
    Process {
        task_id: p.task_id,
        name: p.name,
        state: ProcessState::Terminated,
        parent_pid: p.parent_pid,
        exit_code: Some(code),
        is_thread: p.is_thread,
    }
}

/// What `set_state` leaves of `p`: a terminated entry stays as it is.
pub open spec fn after_set_state(p: Process, s: ProcessState) -> Process {
    if p.state is Terminated { p } else { with_process_state(p, s) }
}

pub struct ProcessTable {
    processes: BTreeMap<Pid, Process>,
    /// The keys of `processes`, strictly increasing.
    order: Vec<Pid>,
}

impl View for ProcessTable {
    type V = Map<Pid, Process>;

    closed spec fn view(&self) -> Map<Pid, Process> {
        self.processes@
    }
}

impl ProcessTable {
    /// The pids of the table in increasing order.
    pub closed spec fn pids(&self) -> Seq<Pid> {
        self.order@
    }

    /// The key list is strictly increasing and holds exactly the pids of
    /// the table.
    pub closed spec fn wf(&self) -> bool {
        &&& forall|i: int, j: int| 0 <= i < j < self.order@.len() ==> self.order@[i] < self.order@[j]
        &&& forall|k: Pid| #[trigger] self.processes@.contains_key(k) <==> self.order@.contains(k)
    }

    /// An empty table.
    pub fn new() -> (r: ProcessTable)
        ensures
            r.wf(),
            r@ == Map::<Pid, Process>::empty(),
    {
        ProcessTable { processes: BTreeMap::new(), order: Vec::new() }
    }
}

impl ProcessTable {
    /// Adds `pid` to the ordered key list, keeping it strictly increasing.
    fn insert_pid(&mut self, pid: Pid)
        requires
            forall|i: int, j: int| 0 <= i < j < old(self).order@.len() ==> old(self).order@[i] < old(self).order@[j],
            !old(self).order@.contains(pid),
        ensures
            forall|i: int, j: int| 0 <= i < j < final(self).order@.len() ==> final(self).order@[i] < final(self).order@[j],
            forall|k: Pid| final(self).order@.contains(k) <==> (old(self).order@.contains(k) || k == pid),
            final(self).processes == old(self).processes,
    {
        let mut i: usize = 0;
        while i < self.order.len() && self.order[i] < pid
            invariant
                0 <= i <= self.order@.len(),
                self.order == old(self).order,
                self.processes == old(self).processes,
                forall|j: int| 0 <= j < i ==> self.order@[j] < pid,
            decreases self.order@.len() - i,
        {
            i = i + 1;
        }
        let ghost s = self.order@;
        proof {
            if i < s.len() {
                assert(s[i as int] != pid);
            }
        }
        self.order.insert(i, pid);
        proof {
            let t = self.order@;
            assert(t == s.insert(i as int, pid));
            assert forall|k: Pid| t.contains(k) <==> (s.contains(k) || k == pid) by {
                if t.contains(k) {
                    let m = choose|m: int| 0 <= m < t.len() && t[m] == k;
                    if m < i {
                        assert(s[m] == k);
                    } else if m > i {
                        assert(s[m - 1] == k);
                    }
                }
                if s.contains(k) {
                    let m = choose|m: int| 0 <= m < s.len() && s[m] == k;
                    if m < i {
                        assert(t[m] == k);
                    } else {
                        assert(t[m + 1] == k);
                    }
                }
                if k == pid {
                    assert(t[i as int] == k);
                }
            }
        }
    }

    /// Adds (or replaces) the entry of `task_id`, in state `Ready`.
    pub fn register(&mut self, task_id: TaskId, name: String, parent_pid: Option<Pid>, is_thread: bool)
        requires
            old(self).wf(),
        ensures
            final(self).wf(),
            final(self)@ == old(self)@.insert(task_id.id(), fresh_process(task_id, name, parent_pid, is_thread)),
    {
        let pid = task_id.as_u64();
        let proc = Process {
            task_id,
            name,
            state: ProcessState::Ready,
            parent_pid,
            exit_code: None,
            is_thread,
        };
        let prev = self.processes.insert(pid, proc);
        match prev {
            Some(_) => {},
            None => {
                self.insert_pid(pid);
            },
        }
    }

    /// Adds (or replaces) the entry of thread `pid`.
    pub fn register_thread(&mut self, pid: Pid, name: String, parent_pid: Option<Pid>)
        requires
            old(self).wf(),
        ensures
            final(self).wf(),
            final(self)@ == old(self)@.insert(pid, fresh_process(TaskId(pid), name, parent_pid, true)),
    {
        self.register(TaskId::from_u64(pid), name, parent_pid, true);
    }

    /// Marks `pid` terminated with `exit_code`; an unknown pid is ignored.
    pub fn terminate(&mut self, pid: Pid, exit_code: i32)
        requires
            old(self).wf(),
        ensures
            final(self).wf(),
            final(self)@ == (if old(self)@.contains_key(pid) {
                old(self)@.insert(pid, terminated(old(self)@[pid], exit_code))
            } else {
                old(self)@
            }),
    {
        let removed = self.processes.remove(&pid);
        match removed {
            Some(proc) => {
                let mut proc = proc;
                proc.state = ProcessState::Terminated;
                proc.exit_code = Some(exit_code);
                self.processes.insert(pid, proc);
                assert(self@ =~= old(self)@.insert(pid, terminated(old(self)@[pid], exit_code)));
            },
            None => {
                assert(self@ =~= old(self)@);
            },
        }
    }

    /// Sets the state of `pid`, unless it has terminated; an unknown pid is
    /// ignored.
    pub fn set_state(&mut self, pid: Pid, state: ProcessState)
        requires
            old(self).wf(),
        ensures
            final(self).wf(),
            final(self)@ == (if old(self)@.contains_key(pid) {
                old(self)@.insert(pid, after_set_state(old(self)@[pid], state))
            } else {
                old(self)@
            }),
    {
        let removed = self.processes.remove(&pid);
        match removed {
            Some(proc) => {
                let mut proc = proc;
                if proc.state != ProcessState::Terminated {
                    proc.state = state;
                }
                self.processes.insert(pid, proc);
                assert(self@ =~= old(self)@.insert(pid, after_set_state(old(self)@[pid], state)));
            },
            None => {
                assert(self@ =~= old(self)@);
            },
        }
    }

    /// Every entry with its pid, in increasing pid order.
    pub fn list(&self) -> (r: Vec<(Pid, &Process)>)
        requires
            self.wf(),
        ensures
            r@.len() == self.pids().len(),
            forall|i: int| 0 <= i < r@.len() ==> (#[trigger] r@[i]).0 == self.pids()[i] && *r@[i].1 == self@[self.pids()[i]],
            forall|i: int, j: int| 0 <= i < j < r@.len() ==> r@[i].0 < r@[j].0,
            forall|k: Pid| self@.contains_key(k) <==> exists|i: int| 0 <= i < r@.len() && (#[trigger] r@[i]).0 == k,
    {
        let mut r: Vec<(Pid, &Process)> = Vec::new();
        let mut i: usize = 0;
        while i < self.order.len()
            invariant
                self.wf(),
                0 <= i <= self.order@.len(),
                r@.len() == i,
                forall|k: int| 0 <= k < i ==> (#[trigger] r@[k]).0 == self.pids()[k] && *r@[k].1 == self@[self.pids()[k]],
            decreases self.order@.len() - i,
        {
            let pid = self.order[i];
            assert(self.order@.contains(pid));
            match self.processes.get(&pid) {
                Some(p) => {
                    r.push((pid, p));
                },
                None => {
                    assert(false);
                },
            }
            i = i + 1;
        }
        proof {
            assert forall|k: Pid| self@.contains_key(k) implies exists|i: int| 0 <= i < r@.len() && (#[trigger] r@[i]).0 == k by {
                assert(self.order@.contains(k));
                let m = choose|m: int| 0 <= m < self.order@.len() && self.order@[m] == k;
                assert(r@[m].0 == k);
            }
        }
        r
    }

    /// The entry of `pid`, if any.
    pub fn get(&self, pid: Pid) -> (r: Option<&Process>)
        ensures
            match r {
                Some(p) => self@.contains_key(pid) && *p == self@[pid],
                None => !self@.contains_key(pid),
            },
    {
        self.processes.get(&pid)
    }

    /// Whether `pid` has an entry that has not terminated.
    pub fn is_alive(&self, pid: Pid) -> (r: bool)
        ensures
            r == (self@.contains_key(pid) && !(self@[pid].state is Terminated)),
    {
        match self.processes.get(&pid) {
            Some(p) => p.state != ProcessState::Terminated,
            None => false,
        }
    }
}

/// Where a kill request for a pid goes.
#[derive(Clone, Copy, PartialEq, Eq, Structural, Debug)]
pub enum KillTarget {
    /// A thread: the scheduler marks it terminated.
    Thread,
    /// A task: the executor's kill mailbox takes it.
    Task,
    /// No such process: nothing to do.
    Unknown,
}

/// Where `kill_process(pid)` sends the request, by the kind the table
/// records for `pid`.
pub fn kill_target(table: &ProcessTable, pid: Pid) -> (r: KillTarget)
    ensures
        r == (if !table@.contains_key(pid) {
            KillTarget::Unknown
        } else if table@[pid].is_thread {
            KillTarget::Thread
        } else {
            KillTarget::Task
        }),
{
    match table.get(pid) {
        Some(p) => if p.is_thread { KillTarget::Thread } else { KillTarget::Task },
        None => KillTarget::Unknown,
    }
}

/// A new, empty process table.
pub fn init() -> (r: ProcessTable)
    ensures
        r.wf(),
        r@ == Map::<Pid, Process>::empty(),
{
    ProcessTable::new()
}


/// Termination is final: once an entry is terminated, `set_state` leaves it
/// terminated, with its exit code, whatever state is asked for.
pub proof fn lemma_terminated_stays(old_table: &ProcessTable, new_table: &ProcessTable, pid: Pid, state: ProcessState)
    requires
        old_table@.contains_key(pid),
        old_table@[pid].state is Terminated,
        new_table@ == old_table@.insert(pid, after_set_state(old_table@[pid], state)),
    ensures
        new_table@[pid] == old_table@[pid],
        new_table@[pid].state is Terminated,
{
}

} // verus!
