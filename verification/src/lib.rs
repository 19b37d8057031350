//! Memory-management and interrupt-table core of a small x86_64 kernel:
//! address and frame value types, a forward-only physical frame allocator,
//! a four-level page-table translator over a model of physical memory, and
//! the description of the interrupt descriptor table.

pub mod addr;
pub mod frame_allocator;
pub mod interrupts;
pub mod paging;
pub mod testing;
