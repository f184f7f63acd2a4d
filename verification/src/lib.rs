//! Core of a small bare-metal kernel: a verified free-list heap allocator
//! together with the computational parts of the kernel's device drivers.
//!
//! The heart of the crate is `memory::heap`, a boundary-tag ("header/footer")
//! free-space manager that supports four placement strategies and immediate
//! bidirectional coalescing.  The allocator's bookkeeping is modelled over
//! plain addresses and sizes, so every list manipulation, split and merge is
//! proved against the documented invariants.  The driver modules hold the
//! pure computations of the console, framebuffer, mailbox and UART drivers;
//! the register pokes themselves stay outside the library.

pub mod drivers;
pub mod hardwareselect;
pub mod memory;
pub mod utils;
