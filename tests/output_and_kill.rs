use kernel::process::{kill_target, KillTarget, ProcessTable};
use kernel::scheduler::{spawn_thread, Scheduler, StackRegion, ThreadState, THREAD_STACK_SIZE};
use kernel::task::{PidCounter, TaskId};
use kernel::line_editor::{LineEditor, LineEvent, MAX_CMD_LEN};
use kernel::vga_buffer::{serial_bytes, Writer, BUFFER_WIDTH};

#[test]
fn writer_tracks_columns_and_wraps() {
    let mut w = Writer::new();
    assert_eq!(w.write_string("abc"), b"abc".to_vec());
    assert_eq!(w.column_position, 3);
    assert_eq!(w.write_byte(0x08), vec![0x08, b' ', 0x08]);
    assert_eq!(w.column_position, 2);
    w.write_string("\n");
    assert_eq!(w.column_position, 0);
    assert_eq!(w.write_byte(0x08), vec![0x08, b' ', 0x08]);
    assert_eq!(w.column_position, 0);
    let line = "x".repeat(BUFFER_WIDTH);
    w.write_string(&line);
    assert_eq!(w.column_position, 0);
}

#[test]
fn writer_replaces_unprintable_bytes() {
    let mut w = Writer::new();
    assert_eq!(w.write_string("a\tb\rc\u{e9}"), b"a?b?c??".to_vec());
    assert_eq!(serial_bytes(b'z'), vec![b'z']);
}

#[test]
fn kill_goes_by_recorded_kind() {
    let mut t = ProcessTable::new();
    t.register_thread(3, String::from("worker"), None);
    t.register(TaskId::from_u64(4), String::from("task"), None, false);
    assert_eq!(kill_target(&t, 3), KillTarget::Thread);
    assert_eq!(kill_target(&t, 4), KillTarget::Task);
    assert_eq!(kill_target(&t, 5), KillTarget::Unknown);
}

#[test]
fn only_the_current_thread_runs() {
    let mut s = Scheduler::new();
    let mut t = ProcessTable::new();
    let mut ids = PidCounter::new();
    let mut pids = Vec::new();
    for n in 1..=3u64 {
        let stack = StackRegion { bottom: n << 20, size: THREAD_STACK_SIZE };
        pids.push(spawn_thread(&mut s, &mut t, &mut ids, format!("t{}", n), 0, 0, 0, None, stack).pid);
    }
    for tick in 1..=5u64 {
        s.schedule(0x1000 * tick, tick);
        let running = s.current_pid().unwrap();
        assert!(pids.contains(&running));
        // Marking the running thread back to running changes nothing else.
        assert_eq!(s.set_current_state(ThreadState::Running), Some(running));
    }
    assert_eq!(pids, vec![1, 2, 3]);
}

#[test]
fn line_editing() {
    let mut e = LineEditor::new();
    assert_eq!(e.edit(Some('l')), LineEvent::Echo('l'));
    assert_eq!(e.edit(Some('x')), LineEvent::Echo('x'));
    assert_eq!(e.edit(Some('\u{8}')), LineEvent::Erase);
    assert_eq!(e.edit(Some('s')), LineEvent::Echo('s'));
    assert_eq!(e.edit(Some('\t')), LineEvent::Nothing);
    assert_eq!(e.edit(Some('é')), LineEvent::Nothing);
    assert_eq!(e.edit(None), LineEvent::Nothing);
    assert_eq!(e.edit(Some('\n')), LineEvent::Submit(vec!['l', 's']));
    assert_eq!(e.edit(Some('\u{8}')), LineEvent::Nothing);
    for _ in 0..MAX_CMD_LEN {
        assert_eq!(e.edit(Some('a')), LineEvent::Echo('a'));
    }
    assert_eq!(e.edit(Some('a')), LineEvent::Nothing);
    match e.edit(Some('\n')) {
        LineEvent::Submit(v) => assert_eq!(v.len(), MAX_CMD_LEN),
        other => panic!("unexpected {:?}", other),
    }
}

#[test]
fn writer_column_follows_each_printed_byte() {
    let mut w = Writer::new();
    w.write_string("ab\ncd");
    assert_eq!(w.column_position, 2);
    w.write_string("\u{8}");
    assert_eq!(w.column_position, 3);
}

#[test]
fn sleep_ends_only_at_the_wake_tick() {
    let mut t = ProcessTable::new();
    t.register_thread(7, String::from("sleeper"), None);
    t.set_state(7, kernel::process::ProcessState::Sleeping);
    assert!(!kernel::scheduler::end_sleep(&mut t, 7, 4, 5));
    assert_eq!(t.get(7).unwrap().state, kernel::process::ProcessState::Sleeping);
    assert!(kernel::scheduler::end_sleep(&mut t, 7, 5, 5));
    assert_eq!(t.get(7).unwrap().state, kernel::process::ProcessState::Ready);
    t.terminate(7, 1);
    assert!(kernel::scheduler::end_sleep(&mut t, 7, 9, 5));
    assert_eq!(t.get(7).unwrap().state, kernel::process::ProcessState::Terminated);
}
