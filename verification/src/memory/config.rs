//! Memory layout of the kernel image on the target board.
//!
//! The firmware loads the kernel at `KERNEL_START`; the kernel stack grows
//! from there, and the heap occupies the region immediately after the space
//! reserved for the stack.  The free-list allocator manages exactly the
//! `[HEAP_START, HEAP_START + HEAP_SIZE)` byte range.

use vstd::prelude::*;

verus! {

/// Address at which the firmware places the kernel image.
pub const KERNEL_START: usize = 0x80000;

/// Base of the kernel stack region (the stack grows downward from here).
pub const KERNEL_STACK_START: usize = 0x80000;

/// First byte of the heap: the stack region is 2 MiB long.
pub const HEAP_START: usize = KERNEL_STACK_START + 0x200000;

/// Total heap length in bytes (2 MiB).
pub const HEAP_SIZE: usize = 0x200000;

} // verus!
