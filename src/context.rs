//! Register frame saved on a timer interrupt, and the synthetic frame that
//! launches a new thread through the ordinary interrupt-return path.
use vstd::prelude::*;

verus! {

/// Size in bytes of an `InterruptFrame`: twenty 64-bit words.
pub const FRAME_BYTES: u64 = 160;

/// Kernel code segment selector (second GDT entry).
pub const KERNEL_CS: u64 = 0x08;

/// Kernel stack segment selector.
pub const KERNEL_SS: u64 = 0x10;

/// Flags of a new thread: interrupts enabled (IF) plus the reserved bit 1.
pub const INITIAL_RFLAGS: u64 = 0x202;

/// CPU state saved on the stack during a timer interrupt. The first fifteen
/// words are pushed by the entry stub, the last five by the CPU.
#[derive(Clone, Copy, PartialEq, Eq, Structural, Debug)]
pub struct InterruptFrame {
    pub r15: u64,
    pub r14: u64,
    pub r13: u64,
    pub r12: u64,
    pub r11: u64,
    pub r10: u64,
    pub r9: u64,
    pub r8: u64,
    pub rbp: u64,
    pub rdi: u64,
    pub rsi: u64,
    pub rdx: u64,
    pub rcx: u64,
    pub rbx: u64,
    pub rax: u64,
    pub rip: u64,
    pub cs: u64,
    pub rflags: u64,
    pub rsp: u64,
    pub ss: u64,
}

/// The frame a new thread starts from: `arg` and `entry` in the first two
/// argument registers, `wrapper` as the resume address, kernel selectors,
/// interrupts enabled, and the stack pointer at the (empty) top of stack.
pub open spec fn spec_initial_frame(entry: u64, arg: u64, wrapper: u64, stack_top: u64) -> InterruptFrame {
    InterruptFrame {
        r15: 0, r14: 0, r13: 0, r12: 0, r11: 0, r10: 0, r9: 0, r8: 0, rbp: 0,
        rdi: arg,
        rsi: entry,
        rdx: 0, rcx: 0, rbx: 0, rax: 0,
        rip: wrapper,
        cs: KERNEL_CS,
        rflags: INITIAL_RFLAGS,
        rsp: stack_top,
        ss: KERNEL_SS,
    }
}

/// Builds the synthetic frame written at the top of a new thread's stack.
pub fn initial_frame(entry: u64, arg: u64, wrapper: u64, stack_top: u64) -> (r: InterruptFrame)
    ensures
        r == spec_initial_frame(entry, arg, wrapper, stack_top),
{
    InterruptFrame {
        r15: 0, r14: 0, r13: 0, r12: 0, r11: 0, r10: 0, r9: 0, r8: 0, rbp: 0,
        rdi: arg,
        rsi: entry,
        rdx: 0, rcx: 0, rbx: 0, rax: 0,
        rip: wrapper,
        cs: KERNEL_CS,
        rflags: INITIAL_RFLAGS,
        rsp: stack_top,
        ss: KERNEL_SS,
    }
}

/// Address at which the synthetic frame is placed: directly below the top
/// of the stack.
pub fn initial_frame_addr(stack_top: u64) -> (r: u64)
    requires
        stack_top >= FRAME_BYTES,
    ensures
        r == stack_top - FRAME_BYTES,
{
    stack_top - FRAME_BYTES
}

} // verus!
