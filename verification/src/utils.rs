//! Utilities shared across the kernel: the exclusive-access wrapper around
//! the process-wide allocator.

pub mod locked;
