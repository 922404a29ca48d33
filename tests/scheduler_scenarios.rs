use kernel::context::{initial_frame, initial_frame_addr, FRAME_BYTES, INITIAL_RFLAGS, KERNEL_CS, KERNEL_SS};
use kernel::process::{ProcessState, ProcessTable};
use kernel::scheduler::{
    init, is_enabled, kill_thread, exit_current_thread, is_thread, sleep_ms, sleep_ticks, spawn_thread, try_schedule,
    Scheduler, StackRegion, Thread, ThreadState, THREAD_STACK_SIZE,
};
use kernel::task::PidCounter;

const IDLE_FRAME: u64 = 0xFFFF_8000_0000_1000;

fn stack(n: u64) -> StackRegion {
    StackRegion { bottom: 0x10_0000 * n, size: THREAD_STACK_SIZE }
}

fn spawn(s: &mut Scheduler, t: &mut ProcessTable, ids: &mut PidCounter, name: &str, n: u64) -> u64 {
    spawn_thread(s, t, ids, String::from(name), 0x1000, n, 0x2000, None, stack(n)).pid
}

#[test]
fn thread_tick_order() {
    let mut s = Scheduler::new();
    let mut t = ProcessTable::new();
    let mut ids = PidCounter::new();
    let a = spawn(&mut s, &mut t, &mut ids, "A", 1);
    let b = spawn(&mut s, &mut t, &mut ids, "B", 2);
    let mut log = String::new();
    // One decision per 10 ms tick over 100 ms; whichever thread gets the
    // CPU logs its letter and sleeps 30 ms.
    for tick in 0..=10u64 {
        s.schedule(IDLE_FRAME, tick);
        if let Some(pid) = s.current_pid() {
            log.push(if pid == a { 'A' } else if pid == b { 'B' } else { '?' });
            assert_eq!(sleep_ms(&mut s, &mut t, 30, tick), Some(tick + 3));
            assert_eq!(t.get(pid).unwrap().state, ProcessState::Sleeping);
        }
    }
    assert_eq!(log, "ABABABAB");
    assert_eq!(log.matches('A').count(), 4);
    assert_eq!(log.matches('B').count(), 4);
}

#[test]
fn kill_in_flight_frees_stack_within_two_ticks() {
    let mut s = Scheduler::new();
    let mut t = ProcessTable::new();
    let mut ids = PidCounter::new();
    let pid = spawn(&mut s, &mut t, &mut ids, "loop", 7);
    let first = s.schedule(IDLE_FRAME, 1);
    assert_eq!(s.current_pid(), Some(pid));
    assert!(first.freed.is_empty());
    assert!(is_thread(&t, pid));
    assert!(kill_thread(&mut s, &mut t, pid));
    let p = t.get(pid).unwrap();
    assert_eq!(p.state, ProcessState::Terminated);
    assert_eq!(p.exit_code, Some(1));
    // The ISR still runs on the killed thread's stack: release is deferred.
    let second = s.schedule(0x7_0000 + 0x3000, 2);
    assert!(second.freed.is_empty());
    assert_eq!(second.frame, IDLE_FRAME);
    assert_eq!(s.current_pid(), None);
    let third = s.schedule(IDLE_FRAME, 3);
    assert_eq!(third.freed, vec![stack(7)]);
    let fourth = s.schedule(IDLE_FRAME, 4);
    assert!(fourth.freed.is_empty());
}

#[test]
fn queued_terminated_thread_is_freed_at_once() {
    let mut s = Scheduler::new();
    let mut t = ProcessTable::new();
    let mut ids = PidCounter::new();
    let a = spawn(&mut s, &mut t, &mut ids, "a", 1);
    let b = spawn(&mut s, &mut t, &mut ids, "b", 2);
    assert!(kill_thread(&mut s, &mut t, a));
    let out = s.schedule(IDLE_FRAME, 1);
    assert_eq!(out.freed, vec![stack(1)]);
    assert_eq!(s.current_pid(), Some(b));
    assert!(!kill_thread(&mut s, &mut t, 99));
}

#[test]
fn fifo_among_ready_threads() {
    let mut s = Scheduler::new();
    let mut t = ProcessTable::new();
    let mut ids = PidCounter::new();
    let a = spawn(&mut s, &mut t, &mut ids, "a", 1);
    let b = spawn(&mut s, &mut t, &mut ids, "b", 2);
    let c = spawn(&mut s, &mut t, &mut ids, "c", 3);
    let mut order = Vec::new();
    for tick in 1..=6u64 {
        s.schedule(0x5000 + tick, tick);
        order.push(s.current_pid().unwrap());
    }
    assert_eq!(order, vec![a, b, c, a, b, c]);
}

#[test]
fn sleeper_wakes_exactly_at_its_tick() {
    let mut s = Scheduler::new();
    let mut t = ProcessTable::new();
    let mut ids = PidCounter::new();
    let a = spawn(&mut s, &mut t, &mut ids, "a", 1);
    s.schedule(IDLE_FRAME, 0);
    assert_eq!(sleep_ms(&mut s, &mut t, 25, 0), Some(3));
    let out = s.schedule(0x9000, 1);
    assert_eq!(out.frame, IDLE_FRAME);
    assert_eq!(s.current_pid(), None);
    s.schedule(IDLE_FRAME, 2);
    assert_eq!(s.current_pid(), None);
    let out = s.schedule(IDLE_FRAME, 3);
    assert_eq!(s.current_pid(), Some(a));
    assert_eq!(out.frame, 0x9000);
}

#[test]
fn first_decision_resumes_synthetic_frame_and_idle_is_remembered() {
    let mut s = Scheduler::new();
    let mut t = ProcessTable::new();
    let mut ids = PidCounter::new();
    let spawned = spawn_thread(&mut s, &mut t, &mut ids, String::from("x"), 0xAAAA, 5, 0xBBBB, Some(1), stack(3));
    assert_eq!(spawned.pid, 1);
    let top = stack(3).bottom + THREAD_STACK_SIZE as u64;
    assert_eq!(spawned.frame_addr, top - 160);
    assert_eq!(spawned.frame.rdi, 5);
    assert_eq!(spawned.frame.rsi, 0xAAAA);
    assert_eq!(spawned.frame.rip, 0xBBBB);
    assert_eq!(spawned.frame.rsp, top);
    assert_eq!(spawned.frame.rflags, 0x202);
    let p = t.get(1).unwrap();
    assert!(p.is_thread);
    assert_eq!(p.parent_pid, Some(1));
    let out = s.schedule(IDLE_FRAME, 1);
    assert_eq!(out.frame, top - 160);
    // The thread exits; the executor's frame comes back.
    assert_eq!(exit_current_thread(&mut s, &mut t), Some(1));
    assert_eq!(t.get(1).unwrap().exit_code, Some(0));
    let out = s.schedule(top - 400, 2);
    assert_eq!(out.frame, IDLE_FRAME);
}

#[test]
fn hook_without_scheduler_resumes_interrupted_context() {
    let mut slot: Option<Scheduler> = None;
    assert!(!is_enabled(&slot));
    assert!(try_schedule(&mut slot, 0x1234, 1).is_none());
    let mut slot = init();
    assert!(is_enabled(&slot));
    let out = try_schedule(&mut slot, 0x1234, 1).unwrap();
    assert_eq!(out.frame, 0x1234);
    assert!(out.freed.is_empty());
}

#[test]
fn sleep_rounds_up_to_ticks() {
    assert_eq!(sleep_ticks(0), 0);
    assert_eq!(sleep_ticks(1), 1);
    assert_eq!(sleep_ticks(10), 1);
    assert_eq!(sleep_ticks(11), 2);
    assert_eq!(sleep_ticks(30), 3);
    assert_eq!(sleep_ticks(500), 50);
    assert_eq!(sleep_ticks(u64::MAX), u64::MAX / 10 + 1);
}

#[test]
fn sleep_outside_a_thread_or_of_zero_does_nothing() {
    let mut s = Scheduler::new();
    let mut t = ProcessTable::new();
    assert_eq!(sleep_ms(&mut s, &mut t, 100, 5), None);
    let mut ids = PidCounter::new();
    spawn(&mut s, &mut t, &mut ids, "a", 1);
    s.schedule(IDLE_FRAME, 0);
    assert_eq!(sleep_ms(&mut s, &mut t, 0, 5), None);
    assert_eq!(sleep_ms(&mut s, &mut t, 100, u64::MAX - 3), Some(u64::MAX));
}

#[test]
fn thread_record_starts_ready_with_frame_at_top() {
    let th = Thread::new(9, String::from("n"), None, stack(1));
    assert_eq!(th.state, ThreadState::Ready);
    assert_eq!(th.saved_frame, stack(1).bottom + THREAD_STACK_SIZE as u64 - FRAME_BYTES);
}

#[test]
fn synthetic_frame_layout() {
    let f = initial_frame(0x11, 0x22, 0x33, 0x8000);
    assert_eq!((f.rdi, f.rsi, f.rip, f.rsp), (0x22, 0x11, 0x33, 0x8000));
    assert_eq!((f.cs, f.ss, f.rflags), (KERNEL_CS, KERNEL_SS, INITIAL_RFLAGS));
    assert_eq!((f.cs, f.ss, f.rflags), (0x08, 0x10, 0x202));
    assert_eq!(f.rax + f.rbx + f.r15 + f.rbp, 0);
    assert_eq!(initial_frame_addr(0x8000), 0x8000 - 160);
    assert_eq!(std::mem::size_of::<kernel::context::InterruptFrame>() as u64, FRAME_BYTES);
}
