//! Hardware abstraction and selection layer.
//!
//! All hardware-specific base addresses are derived from a single
//! peripheral base that differs between boards; every other register block
//! sits at a fixed offset from it.  The board is chosen by a `Platform`
//! value rather than scattered constants, so the same kernel logic serves
//! the emulator and both real boards.

use vstd::prelude::*;

verus! {

/// The board (or emulation of one) the kernel runs on.
#[derive(Clone, Copy, PartialEq, Eq, Structural, Debug)]
pub enum Platform {
    Qemu,
    Rpi3,
    Rpi4,
}

/// UART clock frequency, identical on all supported boards.
pub const UART_CLOCK_HZ: u32 = 48_000_000;

/// System clock frequency.
pub const SYSTEM_CLOCK_HZ: u32 = 1_000_000_000;

/// Peripheral base address of each board.
pub open spec fn spec_peripheral_base(p: Platform) -> int {
    match p {
        Platform::Qemu => 0x3F000000,
        Platform::Rpi3 => 0x3F000000,
        Platform::Rpi4 => 0xFE000000,
    }
}

/// Base address of the board's memory-mapped peripherals.
pub fn peripheral_base(p: Platform) -> (r: usize)
    ensures
        r == spec_peripheral_base(p),
{
    match p {
        Platform::Qemu => 0x3F000000,
        Platform::Rpi3 => 0x3F000000,
        Platform::Rpi4 => 0xFE000000,
    }
}

/// PL011 UART0 register block.
pub fn uart0_base(p: Platform) -> (r: usize)
    ensures
        r == spec_peripheral_base(p) + 0x201000,
{
    peripheral_base(p) + 0x201000
}

/// Mailbox interface for CPU-to-GPU property calls.
pub fn mailbox_base(p: Platform) -> (r: usize)
    ensures
        r == spec_peripheral_base(p) + 0x00B880,
{
    peripheral_base(p) + 0x00B880
}

/// GPIO controller.
pub fn gpio_base(p: Platform) -> (r: usize)
    ensures
        r == spec_peripheral_base(p) + 0x200000,
{
    peripheral_base(p) + 0x200000
}

/// System timer.
pub fn timer_base(p: Platform) -> (r: usize)
    ensures
        r == spec_peripheral_base(p) + 0x003000,
{
    peripheral_base(p) + 0x003000
}

/// Watchdog timer.
pub fn watchdog_base(p: Platform) -> (r: usize)
    ensures
        r == spec_peripheral_base(p) + 0x100000,
{
    peripheral_base(p) + 0x100000
}

/// Human-readable name of the platform.
pub fn get_platform_name(p: Platform) -> (r: &'static str)
    ensures
        p == Platform::Qemu ==> r@ == "QEMU (RPi3 Model)"@,
        p == Platform::Rpi3 ==> r@ == "Raspberry Pi 3"@,
        p == Platform::Rpi4 ==> r@ == "Raspberry Pi 4"@,
{
    match p {
        Platform::Qemu => "QEMU (RPi3 Model)",
        Platform::Rpi3 => "Raspberry Pi 3",
        Platform::Rpi4 => "Raspberry Pi 4",
    }
}

/// The platform's peripheral base address, rendered as a hex string.
pub fn get_peripheral_base_display(p: Platform) -> (r: &'static str)
    ensures
        p == Platform::Qemu ==> r@ == "0x3F000000"@,
        p == Platform::Rpi3 ==> r@ == "0x3F000000"@,
        p == Platform::Rpi4 ==> r@ == "0xFE000000"@,
{
    match p {
        Platform::Qemu => "0x3F000000",
        Platform::Rpi3 => "0x3F000000",
        Platform::Rpi4 => "0xFE000000",
    }
}

} // verus!
