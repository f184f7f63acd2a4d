//! Memory management: the heap configuration and the free-list allocator,
//! plus the construction of the kernel's single process-wide allocator.

pub mod config;
pub mod heap;

use vstd::prelude::*;
use crate::memory::config::{HEAP_SIZE, HEAP_START};
use crate::memory::heap::{FreeList, HeapType};
use crate::utils::locked::Locked;

verus! {

/// Builds the kernel's allocator: a `FreeList` spanning the configured heap
/// region, wrapped for exclusive access.  The surrounding kernel calls this
/// exactly once at startup, before any allocation, and keeps the result for
/// the remainder of execution.
pub fn init() -> (r: Locked<FreeList>)
    ensures
        r.value().wf(),
        r.value().start_address == HEAP_START,
        r.value().capacity == HEAP_SIZE,
        r.value().heap_type == HeapType::BestFit,
        r.value().blocks@ =~= heap::initial_blocks(HEAP_START as int, HEAP_SIZE as int),
{
    let list = FreeList::init(HEAP_START, HEAP_SIZE, HeapType::BestFit);
    Locked::new(list)
}

} // verus!
