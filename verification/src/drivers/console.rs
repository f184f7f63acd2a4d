//! Text console over the framebuffer.
//!
//! The console renders an 8x8 bitmap font, tracks the pixel cursor, wraps
//! at the right edge and wraps from the bottom back to the top.  Rendering
//! a character is computed here as the exact list of pixel writes it
//! requires; the surrounding kernel performs those writes against the
//! framebuffer memory.

use vstd::prelude::*;
use crate::drivers::framebuffer::FrameBuffer;

verus! {

/// Width of a glyph cell in pixels.
pub const FONT_WIDTH: u32 = 8;

/// Height of a glyph cell in pixels.
pub const FONT_HEIGHT: u32 = 8;

/// Background color: fully opaque black.
pub const CONSOLE_BG: u32 = 0xFF000000;

/// Initial text color: fully opaque white.
pub const DEFAULT_COLOR: u32 = 0xFFFFFFFF;

/// One pending framebuffer write: the pixel's coordinates and its color.
#[derive(Clone, Copy, PartialEq, Eq, Structural, Debug)]
pub struct PixelOp {
    pub x: u32,
    pub y: u32,
    pub color: u32,
}

/// Whether the glyph row `row_byte` has a foreground pixel in column
/// `bit` (counting from the left, so the leftmost pixel is the top bit).
pub open spec fn glyph_bit(row_byte: u8, bit: int) -> bool {
    (row_byte >> ((7 - bit) as u32)) & 1 == 1
}

/// The `k`-th pixel write of a glyph cell drawn at `(x0, y0)`: writes go
/// row by row, left to right, foreground pixels in `color` and the rest in
/// the background color.
pub open spec fn spec_glyph_pixel(x0: u32, y0: u32, color: u32, glyph: Seq<u8>, k: int) -> PixelOp {
    PixelOp {
        x: (x0 + (k % 8)) as u32,
        y: (y0 + (k / 8)) as u32,
        color: if glyph_bit(glyph[k / 8], k % 8) {
            color
        } else {
            CONSOLE_BG
        },
    }
}

/// Vertical cursor position after a line feed on a screen of the given
/// height: one glyph row further down, or back to the top edge when the
/// bottom is passed.
pub open spec fn spec_newline_y(y: int, height: int) -> int {
    if y + FONT_HEIGHT >= height {
        0
    } else {
        y + FONT_HEIGHT
    }
}

/// The text console: the framebuffer it draws on, the pixel cursor, and
/// the current text color.
#[derive(Clone, Copy, PartialEq, Eq, Structural, Debug)]
pub struct Console {
    pub fb: FrameBuffer,
    pub cursor_x: u32,
    pub cursor_y: u32,
    pub current_color: u32,
}

impl Console {
    /// The cursor stays within one glyph cell of the screen edges, and the
    /// screen is small enough that per-glyph coordinate arithmetic cannot
    /// wrap.
    pub open spec fn wf(self) -> bool {
        &&& self.fb.width <= u32::MAX - 16
        &&& self.fb.height <= u32::MAX - 16
        &&& self.cursor_x <= self.fb.width + 8
        &&& self.cursor_y <= self.fb.height + 8
    }

    /// Creates a console drawing on `fb`, with the cursor at the top left
    /// corner and white text.
    pub fn new(fb: FrameBuffer) -> (r: Console)
        requires
            fb.width <= u32::MAX - 16,
            fb.height <= u32::MAX - 16,
        ensures
            r.wf(),
            r.fb == fb,
            r.cursor_x == 0,
            r.cursor_y == 0,
            r.current_color == DEFAULT_COLOR,
    {
        Console { fb, cursor_x: 0, cursor_y: 0, current_color: DEFAULT_COLOR }
    }

    /// Sets the color used for subsequent characters.
    pub fn set_color(&mut self, color: u32)
        ensures
            final(self).current_color == color,
            final(self).fb == old(self).fb,
            final(self).cursor_x == old(self).cursor_x,
            final(self).cursor_y == old(self).cursor_y,
    {
        self.current_color = color;
    }

    /// Index into the 95-entry printable-ASCII font table for `c`: the
    /// characters from space (0x20) to tilde (0x7E) map in order, anything
    /// else falls back to the space glyph.
    pub fn glyph_index(c: char) -> (r: usize)
        ensures
            0x20 <= c as u32 <= 0x7E ==> r == c as u32 - 0x20,
            !(0x20 <= c as u32 <= 0x7E) ==> r == 0,
            r < 95,
    {
        let u = c as u32;
        if 0x20 <= u && u <= 0x7E {
            (u - 0x20) as usize
        } else {
            0
        }
    }

    /// Moves the cursor to the start of the next line, wrapping back to
    /// the top edge once the bottom of the screen is passed.
    fn newline(&mut self)
        requires
            old(self).wf(),
        ensures
            final(self).wf(),
            final(self).fb == old(self).fb,
            final(self).current_color == old(self).current_color,
            final(self).cursor_x == 0,
            final(self).cursor_y == spec_newline_y(
                old(self).cursor_y as int,
                old(self).fb.height as int,
            ),
    {
        self.cursor_x = 0;
        self.cursor_y = self.cursor_y + FONT_HEIGHT;
        if self.cursor_y >= self.fb.height {
            self.cursor_y = 0;
        }
    }

    /// Renders one character: a line feed only moves the cursor; any other
    /// character (drawn with the given glyph bitmap, wrapped to the next
    /// line if it would overrun the right edge) produces the 64 pixel
    /// writes of its cell and advances the cursor by one cell width.
    #[verifier::loop_isolation(false)]
    pub fn draw_char(&mut self, c: char, glyph: &[u8; 8]) -> (ops: Vec<PixelOp>)
        requires
            old(self).wf(),
        ensures
            final(self).wf(),
            final(self).fb == old(self).fb,
            final(self).current_color == old(self).current_color,
            c == '\n' ==> ops@.len() == 0 && final(self).cursor_x == 0 && final(self).cursor_y
                == spec_newline_y(old(self).cursor_y as int, old(self).fb.height as int),
            c != '\n' ==> {
                let wrap = old(self).cursor_x + FONT_WIDTH >= old(self).fb.width;
                let sx = if wrap {
                    0int
                } else {
                    old(self).cursor_x as int
                };
                let sy = if wrap {
                    spec_newline_y(old(self).cursor_y as int, old(self).fb.height as int)
                } else {
                    old(self).cursor_y as int
                };
                &&& final(self).cursor_x == sx + FONT_WIDTH
                &&& final(self).cursor_y == sy
                &&& ops@.len() == 64
                &&& forall|k: int|
                    0 <= k < 64 ==> ops@[k] == spec_glyph_pixel(
                        sx as u32,
                        sy as u32,
                        old(self).current_color,
                        glyph@,
                        k,
                    )
            },
    {
        if c == '\n' {
            self.newline();
            return Vec::new();
        }
        if self.cursor_x + FONT_WIDTH >= self.fb.width {
            self.newline();
        }
        let x0 = self.cursor_x;
        let y0 = self.cursor_y;
        let color = self.current_color;
        let mut ops: Vec<PixelOp> = Vec::new();
        let mut row: usize = 0;
        while row < 8
            invariant
                row <= 8,
                ops@.len() == row * 8,
                forall|k: int|
                    0 <= k < row * 8 ==> ops@[k] == spec_glyph_pixel(x0, y0, color, glyph@, k),
            decreases 8 - row,
        {
            let byte = glyph[row];
            let mut bit: usize = 0;
            while bit < 8
                invariant
                    row < 8,
                    bit <= 8,
                    byte == glyph@[row as int],
                    ops@.len() == row * 8 + bit,
                    forall|k: int|
                        0 <= k < row * 8 + bit ==> ops@[k] == spec_glyph_pixel(
                            x0,
                            y0,
                            color,
                            glyph@,
                            k,
                        ),
                decreases 8 - bit,
            {
                let px = x0 + (bit as u32);
                let py = y0 + (row as u32);
                let color_k = if (byte >> ((7 - bit) as u32)) & 1 == 1 {
                    color
                } else {
                    CONSOLE_BG
                };
                ops.push(PixelOp { x: px, y: py, color: color_k });
                proof {
                    let k = row * 8 + bit;
                    assert(k / 8 == row && k % 8 == bit);
                    assert(ops@[k as int] == spec_glyph_pixel(x0, y0, color, glyph@, k as int));
                }
                bit = bit + 1;
            }
            row = row + 1;
        }
        self.cursor_x = x0 + FONT_WIDTH;
        ops
    }

    /// Erases the character cell before the cursor: at the start of a line
    /// nothing happens; otherwise the cursor moves back one cell and the
    /// cell is filled with the 64 background pixel writes.
    #[verifier::loop_isolation(false)]
    pub fn backspace(&mut self) -> (ops: Vec<PixelOp>)
        requires
            old(self).wf(),
        ensures
            final(self).wf(),
            final(self).fb == old(self).fb,
            final(self).current_color == old(self).current_color,
            final(self).cursor_y == old(self).cursor_y,
            old(self).cursor_x < FONT_WIDTH ==> final(self).cursor_x == old(self).cursor_x
                && ops@.len() == 0,
            old(self).cursor_x >= FONT_WIDTH ==> {
                &&& final(self).cursor_x == old(self).cursor_x - FONT_WIDTH
                &&& ops@.len() == 64
                &&& forall|k: int|
                    0 <= k < 64 ==> ops@[k] == (PixelOp {
                        x: (old(self).cursor_x - FONT_WIDTH + k % 8) as u32,
                        y: (old(self).cursor_y + k / 8) as u32,
                        color: CONSOLE_BG,
                    })
            },
    {
        if self.cursor_x < FONT_WIDTH {
            return Vec::new();
        }
        self.cursor_x = self.cursor_x - FONT_WIDTH;
        let x0 = self.cursor_x;
        let y0 = self.cursor_y;
        let mut ops: Vec<PixelOp> = Vec::new();
        let mut row: usize = 0;
        while row < 8
            invariant
                row <= 8,
                ops@.len() == row * 8,
                forall|k: int|
                    0 <= k < row * 8 ==> ops@[k] == (PixelOp {
                        x: (x0 + k % 8) as u32,
                        y: (y0 + k / 8) as u32,
                        color: CONSOLE_BG,
                    }),
            decreases 8 - row,
        {
            let mut bit: usize = 0;
            while bit < 8
                invariant
                    row < 8,
                    bit <= 8,
                    ops@.len() == row * 8 + bit,
                    forall|k: int|
                        0 <= k < row * 8 + bit ==> ops@[k] == (PixelOp {
                            x: (x0 + k % 8) as u32,
                            y: (y0 + k / 8) as u32,
                            color: CONSOLE_BG,
                        }),
                decreases 8 - bit,
            {
                ops.push(PixelOp { x: x0 + (bit as u32), y: y0 + (row as u32), color: CONSOLE_BG });
                proof {
                    let k = row * 8 + bit;
                    assert(k / 8 == row && k % 8 == bit);
                }
                bit = bit + 1;
            }
            row = row + 1;
        }
        ops
    }
}

} // verus!
