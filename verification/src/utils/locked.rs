//! Exclusive-access wrapper for the single process-wide allocator.
//!
//! The kernel runs a single logical thread of control with no preemption, so
//! mutual exclusion is a bookkeeping convention rather than an enforced
//! lock: `lock` simply hands out the wrapped value under Rust's usual
//! exclusive-borrow rules, which is exactly the "single-threaded,
//! non-reentrant caller" contract the allocator depends on.  Extending the
//! kernel to several cores or to allocating interrupt handlers requires
//! replacing this wrapper with a real spin-lock or an interrupt-disabling
//! critical section; that is a deliberate behaviour change, not a drop-in
//! swap.

use vstd::prelude::*;
use crate::memory::heap::{allocate_spec, deallocate_spec, is_payload_of, FreeList};

verus! {

/// Wraps a value to give it a single, serialized point of mutable access.
pub struct Locked<A> {
    inner: A,
}

impl<A> Locked<A> {
    /// The wrapped value.
    pub closed spec fn value(self) -> A {
        self.inner
    }

    pub fn new(inner: A) -> (r: Locked<A>)
        ensures
            r.value() == inner,
    {
        Locked { inner }
    }

    /// Yields exclusive mutable access to the wrapped value.  The caller
    /// must not retain the access across an operation that could re-enter
    /// the wrapper.
    pub fn lock(&mut self) -> (r: &mut A)
        ensures
            *r == old(self).value(),
            final(self).value() == *final(r),
    {
        &mut self.inner
    }
}

/// The allocator adapter: the boundary between the runtime's generic
/// "allocate so many bytes at this alignment" requests and the free-list
/// engine.  A "no fit" outcome is reported as `None`; the surrounding
/// kernel, which has no way to recover memory, escalates that to a fatal
/// out-of-memory condition.
impl Locked<FreeList> {
    /// Allocates through the wrapped free list.
    pub fn allocate(&mut self, requested_size: usize, requested_align: usize) -> (r: Option<usize>)
        requires
            old(self).value().wf(),
        ensures
            final(self).value().wf(),
            allocate_spec(
                old(self).value(),
                final(self).value(),
                requested_size as int,
                requested_align as int,
                r,
            ),
    {
        self.inner.allocate(requested_size, requested_align)
    }

    /// Returns an allocation to the wrapped free list.  The address must
    /// come from `allocate` and not have been handed back already.
    pub fn deallocate(&mut self, address: usize)
        requires
            old(self).value().wf(),
            exists|i: int| is_payload_of(old(self).value().blocks@, address as int, i),
        ensures
            final(self).value().wf(),
            deallocate_spec(old(self).value(), final(self).value(), address as int),
    {
        self.inner.deallocate(address)
    }
}

} // verus!
