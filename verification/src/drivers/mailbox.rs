//! Mailbox interface between the ARM core and the VideoCore GPU.
//!
//! A mailbox call hands the GPU the address of a 16-byte-aligned property
//! message, with the channel number packed into the low four address bits,
//! and the GPU answers by rewriting the message in place.  The encoding of
//! the doorbell word and the interpretation of the response are verified
//! here; the register polling itself is performed by the surrounding
//! kernel.

use vstd::prelude::*;

verus! {

/// Code the GPU writes into word 1 of a message it processed successfully.
pub const MBOX_RESPONSE_OK: u32 = 0x80000000;

/// A property-tag message: word 0 holds the total byte size, word 1 the
/// request/response code, then the tags, then a zero end tag.  The GPU
/// requires the buffer to sit at a 16-byte-aligned address.
pub struct MboxMessage {
    pub data: [u32; 36],
}

/// The mailbox controller; it holds no state of its own.
pub struct Mailbox;

impl Mailbox {
    pub fn new() -> (r: Mailbox) {
        Mailbox
    }

    /// The word written to the mailbox doorbell register for a call: the
    /// message address with the channel in its low four bits.  A message
    /// address that is not 16-byte aligned cannot be encoded and the call
    /// must fail.
    pub fn encode_call(ptr: u32, channel: u32) -> (r: Option<u32>)
        ensures
            r is Some <==> ptr % 16 == 0,
            ptr & 0xF == 0 ==> r == Some((ptr & !0xFu32) | (channel & 0xFu32)),
            ptr & 0xF != 0 ==> r is None,
    {
        proof {
            assert(ptr & 0xF == 0 <==> ptr % 16 == 0) by (bit_vector);
        }
        if ptr & 0xF != 0 {
            return None;
        }
        Some((ptr & !0xFu32) | (channel & 0xFu32))
    }

    /// Whether the GPU reported success for a processed message.
    pub fn response_ok(msg: &MboxMessage) -> (r: bool)
        ensures
            r == (msg.data@[1] == MBOX_RESPONSE_OK),
    {
        msg.data[1] == MBOX_RESPONSE_OK
    }
}

} // verus!
