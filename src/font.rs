//! Bitmap glyphs: 8 by 16 pixels, one byte per row, the most significant
//! bit the leftmost pixel; a font holds 256 glyphs one after the other.
use vstd::prelude::*;
use crate::framebuffer::{with_pixel, Framebuffer};

verus! {

pub const CHAR_WIDTH: usize = 8;
pub const CHAR_HEIGHT: usize = 16;

/// Bytes of a whole font: 16 for each of the 256 glyphs.
pub const FONT_BYTES: usize = 4096;

/// Whether pixel `col` of a glyph row `bits` is set.
pub open spec fn pixel_on(bits: u8, col: int) -> bool {
    ((bits >> ((7 - col) as u8)) & 1u8) != 0u8
}

/// `buf` with the first `cols` pixels of one glyph row drawn at (`x`, `y`).
pub open spec fn with_glyph_row(buf: Seq<u8>, fb: Framebuffer, x: int, y: int, bits: u8, cols: nat, fg: (u8, u8, u8), bg: (u8, u8, u8)) -> Seq<u8>
    decreases cols,
{
    if cols == 0 {
        buf
    } else {
        let c = cols - 1;
        let (r, g, b) = if pixel_on(bits, c) { fg } else { bg };
        with_pixel(with_glyph_row(buf, fb, x, y, bits, (cols - 1) as nat, fg, bg), fb.spec_info(), x + c, y, r, g, b)
    }
}

/// `buf` with the first `rows` rows of glyph `c` of `font` drawn with its
/// top-left corner at (`x`, `y`): foreground where a bit is set, background
/// elsewhere.
pub open spec fn with_glyph(buf: Seq<u8>, fb: Framebuffer, font: Seq<u8>, x: int, y: int, c: u8, rows: nat, fg: (u8, u8, u8), bg: (u8, u8, u8)) -> Seq<u8>
    decreases rows,
{
    if rows == 0 {
        buf
    } else {
        let row = rows - 1;
        with_glyph_row(with_glyph(buf, fb, font, x, y, c, (rows - 1) as nat, fg, bg), fb, x, y + row,
            font[c * CHAR_HEIGHT + row], CHAR_WIDTH as nat, fg, bg)
    }
}

/// Draws glyph `c` of `font` with its top-left corner at pixel (`x`, `y`).
pub fn draw_char(fb: &mut Framebuffer, font: &[u8], x: usize, y: usize, c: u8, fg: (u8, u8, u8), bg: (u8, u8, u8))
    requires
        old(fb).wf(),
        font@.len() >= FONT_BYTES,
        x + CHAR_WIDTH <= usize::MAX,
        y + CHAR_HEIGHT <= usize::MAX,
    ensures
        final(fb).wf(),
        final(fb).spec_info() == old(fb).spec_info(),
        final(fb).bytes() == with_glyph(old(fb).bytes(), *old(fb), font@, x as int, y as int, c, CHAR_HEIGHT as nat, fg, bg),
{
    let glyph_offset = (c as usize) * CHAR_HEIGHT;
    let ghost start = *fb;
    let mut row: usize = 0;
    while row < CHAR_HEIGHT
        invariant
            fb.wf(),
            fb.spec_info() == start.spec_info(),
            start == *old(fb),
            font@.len() >= FONT_BYTES,
            glyph_offset == c * CHAR_HEIGHT,
            x + CHAR_WIDTH <= usize::MAX,
            y + CHAR_HEIGHT <= usize::MAX,
            0 <= row <= CHAR_HEIGHT,
            fb.bytes() == with_glyph(start.bytes(), start, font@, x as int, y as int, c, row as nat, fg, bg),
        decreases CHAR_HEIGHT - row,
    {
        let bits = font[glyph_offset + row];
        let ghost before = fb.bytes();
        let mut col: usize = 0;
        while col < CHAR_WIDTH
            invariant
                fb.wf(),
                fb.spec_info() == start.spec_info(),
                x + CHAR_WIDTH <= usize::MAX,
                y + CHAR_HEIGHT <= usize::MAX,
                row < CHAR_HEIGHT,
                0 <= col <= CHAR_WIDTH,
                fb.bytes() == with_glyph_row(before, start, x as int, (y + row) as int, bits, col as nat, fg, bg),
            decreases CHAR_WIDTH - col,
        {
            let on = (bits >> ((7 - col) as u8)) & 1u8 != 0u8;
            let (r, g, b) = if on { fg } else { bg };
            fb.put_pixel(x + col, y + row, r, g, b);
            col = col + 1;
        }
        row = row + 1;
    }
}

} // verus!
