//! PL011 UART driver: serial communication over GPIO pins 14 and 15.
//!
//! The controller is stateless; bringing it up is a fixed sequence of
//! register writes (disable, mask and clear interrupts, program the 115200
//! baud divisors, select 8-bit frames with FIFOs, re-enable).  That
//! sequence is computed and verified here as data; the surrounding kernel
//! performs the actual volatile writes, as it does the polled send and
//! receive.

use vstd::prelude::*;

verus! {

/// Register offsets within the PL011 block.
pub const UART_CR: usize = 0x30;

pub const UART_IMSC: usize = 0x38;

pub const UART_ICR: usize = 0x44;

pub const UART_IBRD: usize = 0x24;

pub const UART_FBRD: usize = 0x28;

pub const UART_LCRH: usize = 0x2C;

/// One register write of the initialization sequence: the register's offset
/// from the UART base, and the value to store.
#[derive(Clone, Copy, PartialEq, Eq, Structural, Debug)]
pub struct RegWrite {
    pub offset: usize,
    pub value: u32,
}

/// The UART controller; it holds no state of its own.
pub struct Uart;

/// The initialization sequence: disable the UART, disable and clear all
/// interrupts, set the 115200-baud divisors (48 MHz / (16 * 115200) =
/// 26 + 3/64), enable FIFOs with 8 data bits, then enable the UART with
/// transmitter and receiver.
pub open spec fn spec_init_writes() -> Seq<RegWrite> {
    seq![
        RegWrite { offset: UART_CR, value: 0 },
        RegWrite { offset: UART_IMSC, value: 0 },
        RegWrite { offset: UART_ICR, value: 0x7FF },
        RegWrite { offset: UART_IBRD, value: 26 },
        RegWrite { offset: UART_FBRD, value: 3 },
        RegWrite { offset: UART_LCRH, value: (1u32 << 4) | (3u32 << 5) },
        RegWrite { offset: UART_CR, value: (1u32 << 0) | (1u32 << 8) | (1u32 << 9) },
    ]
}

impl Uart {
    /// Creates a UART handle.  The caller must perform the writes of
    /// [`Uart::init_writes`] against the UART register block before using
    /// the device.
    pub fn new() -> (r: Uart) {
        Uart
    }

    /// The register writes that configure the UART (see
    /// [`spec_init_writes`]), in the order they must be performed.
    pub fn init_writes(&self) -> (r: Vec<RegWrite>)
        ensures
            r@ =~= spec_init_writes(),
    {
        let mut r: Vec<RegWrite> = Vec::new();
        r.push(RegWrite { offset: UART_CR, value: 0 });
        r.push(RegWrite { offset: UART_IMSC, value: 0 });
        r.push(RegWrite { offset: UART_ICR, value: 0x7FF });
        r.push(RegWrite { offset: UART_IBRD, value: 26 });
        r.push(RegWrite { offset: UART_FBRD, value: 3 });
        r.push(RegWrite { offset: UART_LCRH, value: (1u32 << 4) | (3u32 << 5) });
        r.push(RegWrite { offset: UART_CR, value: (1u32 << 0) | (1u32 << 8) | (1u32 << 9) });
        r
    }
}

} // verus!
