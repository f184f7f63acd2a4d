//! Video framebuffer manager.
//!
//! The GPU owns the framebuffer: the driver asks for a 1920x1080, 32-bit
//! display through a mailbox property message and receives the buffer's
//! base address in the response.  Building the request, validating the
//! response and computing pixel addresses are verified here; sending the
//! message and the volatile pixel stores are the surrounding kernel's job.

use vstd::prelude::*;
use crate::drivers::mailbox::{MboxMessage, MBOX_RESPONSE_OK};

verus! {

/// Display width configured by the driver, in pixels.
pub const FB_WIDTH: u32 = 1920;

/// Display height configured by the driver, in pixels.
pub const FB_HEIGHT: u32 = 1080;

/// A configured framebuffer: its geometry and the physical base address the
/// GPU allocated for it.
#[derive(Clone, Copy, PartialEq, Eq, Structural, Debug)]
pub struct FrameBuffer {
    pub width: u32,
    pub height: u32,
    pub pitch: u32,
    pub base_addr: usize,
}

/// The property message requesting the framebuffer, word by word: total
/// byte size and request code, then five tags (physical size, virtual size,
/// virtual offset, depth, buffer allocation), then the zero end tag.
pub open spec fn spec_fb_request() -> Seq<u32> {
    seq![
        140u32, 0u32,
        0x00048003u32, 8u32, 8u32, 1920u32, 1080u32,
        0x00048004u32, 8u32, 8u32, 1920u32, 1080u32,
        0x00048009u32, 8u32, 8u32, 0u32, 0u32,
        0x00048005u32, 4u32, 4u32, 32u32,
        0x00040001u32, 8u32, 8u32, 4096u32, 0u32,
        0u32,
        0u32, 0u32, 0u32, 0u32, 0u32, 0u32, 0u32, 0u32, 0u32,
    ]
}

impl FrameBuffer {
    /// Geometry is consistent and pixel addresses cannot wrap: each row is
    /// `width` 4-byte pixels, and the whole buffer fits below the address
    /// space's end.
    pub open spec fn wf(self) -> bool {
        &&& self.pitch == self.width * 4
        &&& self.width * 4 <= u32::MAX
        &&& (self.height as int) * (self.pitch as int) <= u32::MAX
    }

    /// The mailbox message that asks the GPU for the framebuffer.  The
    /// caller sends it on the property channel and hands the GPU's answer
    /// to [`FrameBuffer::new`].
    pub fn request() -> (r: MboxMessage)
        ensures
            r.data@ =~= spec_fb_request(),
    {
        MboxMessage {
            data: [
                140, 0,
                0x00048003, 8, 8, 1920, 1080,
                0x00048004, 8, 8, 1920, 1080,
                0x00048009, 8, 8, 0, 0,
                0x00048005, 4, 4, 32,
                0x00040001, 8, 8, 4096, 0,
                0,
                0, 0, 0, 0, 0, 0, 0, 0, 0,
            ],
        }
    }

    /// Interprets the GPU's answer to [`FrameBuffer::request`].  Word 1
    /// must carry the success code (otherwise the GPU's own code is the
    /// error), and word 24 — the value slot of the allocation tag — must
    /// hold a non-zero buffer address (otherwise error 2).
    pub fn new(response: &MboxMessage) -> (r: Result<FrameBuffer, u32>)
        ensures
            response.data@[1] != MBOX_RESPONSE_OK ==> r == Err::<FrameBuffer, u32>(
                response.data@[1],
            ),
            response.data@[1] == MBOX_RESPONSE_OK && response.data@[24] == 0 ==> r
                == Err::<FrameBuffer, u32>(2u32),
            response.data@[1] == MBOX_RESPONSE_OK && response.data@[24] != 0 ==> (r matches Ok(fb)
                && fb.width == FB_WIDTH
                && fb.height == FB_HEIGHT
                && fb.pitch == FB_WIDTH * 4
                && fb.base_addr == response.data@[24]
                && fb.wf()),
    {
        if response.data[1] != MBOX_RESPONSE_OK {
            return Err(response.data[1]);
        }
        let ptr_val = response.data[24];
        let base_addr = ptr_val as usize;
        if base_addr == 0 {
            return Err(2);
        }
        let fb = FrameBuffer { width: FB_WIDTH, height: FB_HEIGHT, pitch: FB_WIDTH * 4, base_addr };
        proof {
            assert(fb.pitch == fb.width * 4);
            assert(fb.width * 4 <= u32::MAX);
            assert((fb.height as int) * (fb.pitch as int) == 8294400) by (nonlinear_arith)
                requires
                    fb.height == 1080,
                    fb.pitch == 7680,
            ;
            assert(fb.wf());
        }
        Ok(fb)
    }

    /// Address of the pixel at `(x, y)`: the byte offset of row `y` plus
    /// the 4-byte pixels before `x`, from the buffer base.  Coordinates off
    /// the screen have no address and must be ignored by the caller.
    pub fn pixel_address(&self, x: u32, y: u32) -> (r: Option<usize>)
        requires
            self.wf(),
            self.base_addr + (self.height as int) * (self.pitch as int) <= usize::MAX,
        ensures
            x < self.width && y < self.height ==> (r matches Some(a) && a == self.base_addr + y
                * self.pitch + x * 4),
            !(x < self.width && y < self.height) ==> r is None,
    {
        if x >= self.width || y >= self.height {
            return None;
        }
        proof {
            let w = self.width as int;
            let h = self.height as int;
            let p = self.pitch as int;
            assert((y as int) * p + (x as int) * 4 + 4 <= h * p) by (nonlinear_arith)
                requires
                    0 <= y as int <= h - 1,
                    0 <= x as int <= w - 1,
                    p == w * 4,
                    0 <= p,
            ;
        }
        let offset = y * self.pitch + x * 4;
        Some(self.base_addr + offset as usize)
    }
}

} // verus!
