//! The execution core of a small x86_64 kernel, verified: the preemptive
//! thread scheduler, the cooperative task executor, the process table that
//! joins them, the scancode ring and stream, memory bring-up, and the
//! in-memory filesystem, framebuffer and console that the shell drives.
//!
//! Hardware access stays with the caller: the library decides which frame
//! to resume, which stacks to free, which frames back the heap and what to
//! draw, and the caller performs it.

pub mod console;
pub mod context;
pub mod executor;
pub mod filesystem;
pub mod font;
pub mod framebuffer;
pub mod interrupts;
pub mod keyboard;
pub mod line_editor;
pub mod memory;
pub mod process;
pub mod scheduler;
pub mod shell;
pub mod task;
pub mod vga_buffer;
