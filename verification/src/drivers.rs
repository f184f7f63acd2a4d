//! Device drivers: the computational half of each driver lives here, fully
//! verified; the memory-mapped register accesses stay with the surrounding
//! kernel.

pub mod console;
pub mod framebuffer;
pub mod mailbox;
pub mod uart;
