//! An emulated, byte-addressable address space with per-byte permission
//! flags, dirty-block tracking for cheap snapshot restore, a bump allocator,
//! a section loader, a guest-executor skeleton, and the bookkeeping for a
//! multi-worker fuzzing loop built on top of it.

pub mod emulator;
pub mod harness;
pub mod mem;

pub use emulator::{Emulator, Register, Section};
pub use harness::{Outcome, ToolResult, Tracker, Worker};
pub use mem::{Mmu, MemError, Perm, VirtAddr};
pub use mem::{PERM_EXEC, PERM_RAW, PERM_READ, PERM_WRITE};
