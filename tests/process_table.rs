use kernel::process::{ProcessState, ProcessTable, EXIT_CLEAN, EXIT_KILLED};
use kernel::task::{PidCounter, TaskId};

#[test]
fn register_then_list_in_pid_order() {
    let mut t = ProcessTable::new();
    t.register(TaskId::from_u64(5), String::from("five"), None, false);
    t.register(TaskId::from_u64(2), String::from("two"), Some(1), true);
    t.register(TaskId::from_u64(9), String::from("nine"), None, false);
    let l = t.list();
    let pids: Vec<u64> = l.iter().map(|e| e.0).collect();
    assert_eq!(pids, vec![2, 5, 9]);
    assert_eq!(l[0].1.name, "two");
    assert!(l[0].1.is_thread);
    assert_eq!(l[0].1.parent_pid, Some(1));
    assert_eq!(l[1].1.state, ProcessState::Ready);
    assert_eq!(l[1].1.exit_code, None);
}

#[test]
fn terminated_entry_is_never_revived() {
    let mut t = ProcessTable::new();
    t.register(TaskId::from_u64(3), String::from("w"), None, false);
    t.terminate(3, EXIT_KILLED);
    t.set_state(3, ProcessState::Running);
    t.set_state(3, ProcessState::Ready);
    let p = t.get(3).unwrap();
    assert_eq!(p.state, ProcessState::Terminated);
    assert_eq!(p.exit_code, Some(1));
    assert!(!t.is_alive(3));
}

#[test]
fn set_state_and_terminate_on_unknown_pid_do_nothing() {
    let mut t = ProcessTable::new();
    t.set_state(7, ProcessState::Running);
    t.terminate(7, EXIT_CLEAN);
    assert!(t.get(7).is_none());
    assert!(!t.is_alive(7));
    assert_eq!(t.list().len(), 0);
}

#[test]
fn ids_are_unique_and_increasing() {
    let mut c = PidCounter::new();
    let a = c.next_task_id();
    let b = c.next_task_id();
    assert_eq!(a.as_u64(), 1);
    assert_eq!(b.as_u64(), 2);
    assert_ne!(a, b);
}
