use kernel::console::{init as console_init, Console, ConsoleOp};
use kernel::font::CHAR_HEIGHT;
use kernel::interrupts::{pit_divisor, pit_program, InterruptIndex, ScancodeQueue, PIC_2_OFFSET, SCANCODE_CAPACITY};
use kernel::keyboard::{notify_keyboard_interrupt, ScancodeStream};
use kernel::memory::{BootInfoFrameAllocator, KernelHeap, MapError, MemoryRegion, HEAP_PAGES, HEAP_SIZE, HEAP_START, PAGE_SIZE};

#[test]
fn timer_programming_bytes() {
    assert_eq!(pit_divisor(), 11931);
    assert_eq!(pit_program(), (0x36, 0x9B, 0x2E));
}

#[test]
fn interrupt_vectors() {
    assert_eq!(InterruptIndex::Timer.as_u8(), 32);
    assert_eq!(InterruptIndex::Keyboard.as_u8(), 33);
    assert_eq!(PIC_2_OFFSET, 40);
}

#[test]
fn scancode_ring_is_fifo_and_drops_when_full() {
    let mut q = ScancodeQueue::new();
    assert_eq!(q.pop(), None);
    for i in 0..200u32 {
        q.push(i as u8);
    }
    assert_eq!(q.len(), SCANCODE_CAPACITY);
    for i in 0..128u32 {
        assert_eq!(q.pop(), Some(i as u8));
    }
    assert_eq!(q.pop(), None);
    // Wrap around the end of the buffer.
    for i in 0..100u8 {
        q.push(i);
        assert_eq!(q.pop(), Some(i));
    }
    assert_eq!(q.len(), 0);
}

#[test]
fn stream_recheck_returns_byte_pushed_after_first_look() {
    let mut taken = false;
    let stream = ScancodeStream::new(&mut taken);
    assert!(taken);
    let fut = stream.next();
    let mut q = ScancodeQueue::new();
    let mut slot: Option<u32> = None;
    assert_eq!(fut.try_take(&mut q), None);
    // A key arrives between the first look and the waker's installation.
    q.push(0x1E);
    assert_eq!(fut.register_and_recheck(&mut q, &mut slot, 7u32), Some(0x1E));
    assert_eq!(slot, Some(7));
    assert_eq!(fut.register_and_recheck(&mut q, &mut slot, 8u32), None);
    assert_eq!(notify_keyboard_interrupt(&slot), Some(&8));
    let empty: Option<u32> = None;
    assert_eq!(notify_keyboard_interrupt(&empty), None);
}

fn regions() -> Vec<MemoryRegion> {
    vec![
        MemoryRegion { start: 0x0, end: 0x3000, usable: true },
        MemoryRegion { start: 0x3000, end: 0x10_0000, usable: false },
        MemoryRegion { start: 0x10_0000, end: 0x10_2800, usable: true },
        MemoryRegion { start: 0x20_0000, end: 0x20_0000, usable: true },
    ]
}

#[test]
fn frames_come_from_usable_regions_in_order() {
    let mut f = BootInfoFrameAllocator::init(regions());
    let got: Vec<Option<u64>> = (0..7).map(|_| f.allocate_frame()).collect();
    assert_eq!(
        got,
        vec![Some(0x0), Some(0x1000), Some(0x2000), Some(0x10_0000), Some(0x10_1000), Some(0x10_2000), None]
    );
    assert_eq!(f.allocate_frame(), None);
}

#[test]
fn heap_maps_sixty_four_pages_once() {
    assert_eq!(HEAP_SIZE, HEAP_PAGES * PAGE_SIZE);
    let mut f = BootInfoFrameAllocator::init(vec![MemoryRegion { start: 0x100_0000, end: 0x200_0000, usable: true }]);
    let mut heap = KernelHeap::new();
    let pairs = heap.init_heap(&mut f).unwrap();
    assert_eq!(pairs.len(), 64);
    assert_eq!(pairs[0], (HEAP_START, 0x100_0000));
    assert_eq!(pairs[63], (0x4444_4444_0000 + 63 * 4096, 0x100_0000 + 63 * 4096));
    assert_eq!(heap.init_heap(&mut f), Err(MapError::PageAlreadyMapped));
    // The refused attempt took no frame.
    assert_eq!(f.allocate_frame(), Some(0x100_0000 + 64 * 4096));
}

#[test]
fn heap_fails_when_frames_run_out() {
    let mut f = BootInfoFrameAllocator::init(regions());
    let mut heap = KernelHeap::new();
    assert_eq!(heap.init_heap(&mut f), Err(MapError::FrameAllocationFailed));
}

fn console() -> Console {
    console_init(8 * 4, 16 * 2)
}

#[test]
fn console_wraps_and_scrolls() {
    let mut c = console();
    assert_eq!((c.cols, c.rows), (4, 2));
    let ops = c.write_string("abcde");
    assert_eq!(ops.len(), 5);
    assert_eq!(ops[0], ConsoleOp::Glyph { x: 0, y: 0, byte: b'a', fg: (255, 255, 255), bg: (0, 0, 0) });
    assert_eq!(ops[3], ConsoleOp::Glyph { x: 24, y: 0, byte: b'd', fg: (255, 255, 255), bg: (0, 0, 0) });
    assert_eq!(ops[4], ConsoleOp::Glyph { x: 0, y: 16, byte: b'e', fg: (255, 255, 255), bg: (0, 0, 0) });
    assert_eq!(c.column_position(), 1);
    let ops = c.write_byte(b'\n');
    assert_eq!(ops, vec![ConsoleOp::ScrollUp { rows: CHAR_HEIGHT, bg: (0, 0, 0) }]);
    assert_eq!((c.col, c.row), (0, 1));
}

#[test]
fn console_backspace_return_and_replacement() {
    let mut c = console();
    c.set_fg(255, 0, 0);
    assert_eq!(c.fg(), (255, 0, 0));
    c.write_string("ab");
    let ops = c.write_byte(0x08);
    assert_eq!(ops, vec![ConsoleOp::Glyph { x: 8, y: 0, byte: b' ', fg: (255, 0, 0), bg: (0, 0, 0) }]);
    assert_eq!(c.column_position(), 1);
    assert!(c.write_byte(b'\r').is_empty());
    assert_eq!(c.column_position(), 0);
    let ops = c.write_string("\u{7}");
    assert_eq!(ops[0], ConsoleOp::Glyph { x: 0, y: 0, byte: b'?', fg: (255, 0, 0), bg: (0, 0, 0) });
    let ops = c.write_string("é");
    assert_eq!(ops.len(), 2);
    c.set_bg(0, 0, 255);
    assert_eq!(c.bg(), (0, 0, 255));
    assert_eq!(c.clear(), ConsoleOp::Fill { color: (0, 0, 255) });
    assert_eq!((c.col, c.row), (0, 0));
    assert!(c.write_byte(0x08).is_empty());
}

#[test]
fn console_size_follows_framebuffer() {
    let c = Console::new(1280, 720);
    assert_eq!((c.cols, c.rows, c.col, c.row), (160, 45, 0, 0));
}
