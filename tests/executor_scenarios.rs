use kernel::executor::{Executor, TaskSpawnRequest};
use kernel::process::{ProcessState, ProcessTable};
use kernel::task::{yield_now, PidCounter, TaskId, YieldNow};
use std::cell::RefCell;
use std::collections::{BTreeMap, VecDeque};
use std::future::Future;
use std::pin::Pin;
use std::sync::atomic::{AtomicBool, AtomicU32, Ordering};
use std::sync::{Arc, Mutex};
use std::task::{Context, Poll, Wake, Waker};

type BoxFuture = Pin<Box<dyn Future<Output = ()>>>;

struct TaskWaker {
    id: u64,
    queue: Arc<Mutex<VecDeque<TaskId>>>,
}

impl Wake for TaskWaker {
    fn wake(self: Arc<Self>) {
        self.queue.lock().unwrap().push_back(TaskId::from_u64(self.id));
    }
}

/// Futures keyed by task id, and the wake mailbox their wakers fill.
struct Harness {
    futures: RefCell<BTreeMap<u64, BoxFuture>>,
    wakes: Arc<Mutex<VecDeque<TaskId>>>,
    ids: PidCounter,
    spawns: VecDeque<TaskSpawnRequest>,
}

impl Harness {
    fn new() -> Self {
        Harness {
            futures: RefCell::new(BTreeMap::new()),
            wakes: Arc::new(Mutex::new(VecDeque::new())),
            ids: PidCounter::new(),
            spawns: VecDeque::new(),
        }
    }

    fn spawn(&mut self, name: &str, f: impl Future<Output = ()> + 'static) -> u64 {
        let id = self.ids.next_task_id();
        self.futures.borrow_mut().insert(id.as_u64(), Box::pin(f));
        self.spawns.push_back(TaskSpawnRequest { task_id: id, name: String::from(name), parent_pid: None });
        id.as_u64()
    }

    fn poll(&self, id: TaskId) -> bool {
        let waker = Waker::from(Arc::new(TaskWaker { id: id.as_u64(), queue: self.wakes.clone() }));
        let mut cx = Context::from_waker(&waker);
        let mut futures = self.futures.borrow_mut();
        let done = match futures.get_mut(&id.as_u64()) {
            Some(f) => f.as_mut().poll(&mut cx).is_ready(),
            None => return true,
        };
        if done {
            futures.remove(&id.as_u64());
        }
        done
    }

    fn run_until_idle(&mut self, ex: &mut Executor, table: &mut ProcessTable) {
        let mut wakes: VecDeque<TaskId> = self.wakes.lock().unwrap().drain(..).collect();
        let mut kills = VecDeque::new();
        let mut spawns = std::mem::take(&mut self.spawns);
        let this = &*self;
        ex.run_until_idle(table, &mut spawns, &mut kills, &mut wakes, &|id| this.poll(id));
    }
}

struct Yield(YieldNow);

impl Future for Yield {
    type Output = ();
    fn poll(mut self: Pin<&mut Self>, cx: &mut Context<'_>) -> Poll<()> {
        if self.0.poll_step() {
            Poll::Ready(())
        } else {
            cx.waker().wake_by_ref();
            Poll::Pending
        }
    }
}

#[test]
fn async_task_completes() {
    static COMPLETED: AtomicBool = AtomicBool::new(false);
    let mut h = Harness::new();
    let mut ex = Executor::new();
    let mut table = ProcessTable::new();
    let pid = h.spawn("flag", async {
        COMPLETED.store(true, Ordering::SeqCst);
    });
    h.run_until_idle(&mut ex, &mut table);
    assert!(COMPLETED.load(Ordering::SeqCst));
    assert!(!ex.has_task(TaskId::from_u64(pid)));
    let p = table.get(pid).unwrap();
    assert_eq!(p.state, ProcessState::Terminated);
    assert_eq!(p.exit_code, Some(0));
    assert!(!p.is_thread);
}

#[test]
fn three_futures_sum() {
    static COUNTER: AtomicU32 = AtomicU32::new(0);
    let mut h = Harness::new();
    let mut ex = Executor::new();
    let mut table = ProcessTable::new();
    for _ in 0..3 {
        h.spawn("inc", async {
            COUNTER.fetch_add(1, Ordering::SeqCst);
        });
    }
    h.run_until_idle(&mut ex, &mut table);
    assert_eq!(COUNTER.load(Ordering::SeqCst), 3);
}

#[test]
fn yield_now_takes_two_rounds() {
    static COMPLETED: AtomicBool = AtomicBool::new(false);
    let mut h = Harness::new();
    let mut ex = Executor::new();
    let mut table = ProcessTable::new();
    let pid = h.spawn("yield", async {
        Yield(yield_now()).await;
        COMPLETED.store(true, Ordering::SeqCst);
    });
    h.run_until_idle(&mut ex, &mut table);
    assert!(!COMPLETED.load(Ordering::SeqCst));
    assert_eq!(table.get(pid).unwrap().state, ProcessState::Blocked);
    h.run_until_idle(&mut ex, &mut table);
    assert!(COMPLETED.load(Ordering::SeqCst));
    assert_eq!(table.get(pid).unwrap().exit_code, Some(0));
}

#[test]
fn yield_state_pending_then_ready() {
    let mut y = yield_now();
    assert!(!y.poll_step());
    assert!(y.poll_step());
    assert!(y.poll_step());
}

#[test]
fn killed_task_is_dropped_and_exits_with_one() {
    let mut ex = Executor::new();
    let mut table = ProcessTable::new();
    let id = TaskId::from_u64(4);
    ex.spawn_process(&mut table, id, String::from("victim"), Some(1));
    let mut spawns = VecDeque::new();
    let mut kills = VecDeque::from(vec![4u64]);
    let mut wakes = VecDeque::from(vec![id]);
    let polled = RefCell::new(Vec::new());
    ex.run_until_idle(&mut table, &mut spawns, &mut kills, &mut wakes, &|t: TaskId| {
        polled.borrow_mut().push(t.as_u64());
        false
    });
    assert!(!ex.has_task(id));
    assert!(polled.borrow().is_empty());
    let p = table.get(4).unwrap();
    assert_eq!(p.state, ProcessState::Terminated);
    assert_eq!(p.exit_code, Some(1));
    assert_eq!(p.parent_pid, Some(1));
    assert!(kills.is_empty() && wakes.is_empty());
}

#[test]
fn wake_of_unknown_task_is_ignored() {
    let mut ex = Executor::new();
    let mut table = ProcessTable::new();
    ex.wake(&mut table, TaskId::from_u64(42));
    assert_eq!(ex.next_ready(&mut table), None);
}

#[test]
fn pending_task_is_blocked_then_woken_ready() {
    let mut ex = Executor::new();
    let mut table = ProcessTable::new();
    let id = TaskId::from_u64(1);
    ex.spawn_process(&mut table, id, String::from("shell"), None);
    assert_eq!(ex.next_ready(&mut table), Some(id));
    assert_eq!(table.get(1).unwrap().state, ProcessState::Running);
    ex.finish_poll(&mut table, id, false);
    assert_eq!(table.get(1).unwrap().state, ProcessState::Blocked);
    ex.wake(&mut table, id);
    assert_eq!(table.get(1).unwrap().state, ProcessState::Ready);
    assert_eq!(ex.next_ready(&mut table), Some(id));
    ex.finish_poll(&mut table, id, true);
    assert!(!ex.has_task(id));
    assert_eq!(ex.next_ready(&mut table), None);
}

#[test]
fn drain_phases_in_order() {
    let mut ex = Executor::new();
    let mut table = ProcessTable::new();
    let mut spawns = VecDeque::from(vec![
        TaskSpawnRequest { task_id: TaskId::from_u64(1), name: String::from("a"), parent_pid: None },
        TaskSpawnRequest { task_id: TaskId::from_u64(2), name: String::from("b"), parent_pid: Some(1) },
        TaskSpawnRequest { task_id: TaskId::from_u64(1), name: String::from("dup"), parent_pid: None },
    ]);
    ex.drain_spawns(&mut table, &mut spawns);
    assert!(spawns.is_empty());
    assert_eq!(table.get(1).unwrap().name, "a");
    assert_eq!(table.get(2).unwrap().parent_pid, Some(1));
    let mut kills = VecDeque::from(vec![2u64]);
    ex.drain_kills(&mut table, &mut kills);
    assert!(!ex.has_task(TaskId::from_u64(2)));
    assert_eq!(table.get(2).unwrap().exit_code, Some(1));
    // The ready queue still holds 1 and 2; 2 is skipped as it is gone.
    assert_eq!(ex.next_ready(&mut table), Some(TaskId::from_u64(1)));
    assert_eq!(ex.next_ready(&mut table), None);
    ex.finish_poll(&mut table, TaskId::from_u64(1), false);
    let mut wakes = VecDeque::from(vec![TaskId::from_u64(2), TaskId::from_u64(1)]);
    ex.drain_wakes(&mut table, &mut wakes);
    assert_eq!(table.get(1).unwrap().state, ProcessState::Ready);
    assert_eq!(ex.next_ready(&mut table), Some(TaskId::from_u64(1)));
}
