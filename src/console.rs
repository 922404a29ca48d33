//! Text console over the framebuffer: a cursor, colors, line wrapping and
//! scrolling. Each write returns the drawing it needs, which the caller
//! performs on the framebuffer.
use vstd::prelude::*;
use vstd::string::StringSliceAdditionalSpecFns;
use crate::font::{CHAR_HEIGHT, CHAR_WIDTH};

verus! {

pub type Rgb = (u8, u8, u8);

/// A drawing operation on the framebuffer.
#[derive(Clone, Copy, PartialEq, Eq, Debug)]
pub enum ConsoleOp {
    /// Draw glyph `byte` with its top-left corner at pixel (`x`, `y`).
    Glyph { x: usize, y: usize, byte: u8, fg: Rgb, bg: Rgb },
    /// Move the picture up by `rows` pixel rows, filling the bottom with `bg`.
    ScrollUp { rows: usize, bg: Rgb },
    /// Fill the whole framebuffer with `color`.
    Fill { color: Rgb },
}

#[derive(Clone, Copy, PartialEq, Eq, Debug)]
pub struct Console {
    /// Cursor column and row, in cells.
    pub col: usize,
    pub row: usize,
    /// Size of the screen, in cells.
    pub cols: usize,
    pub rows: usize,
    pub fg: Rgb,
    pub bg: Rgb,
}

/// The console after a newline, and the drawing it needs: the cursor goes
/// to the start of the next row, scrolling by one text row at the bottom.
pub open spec fn spec_newline(c: Console) -> (Console, Seq<ConsoleOp>) {
    if c.row + 1 >= c.rows {
        (Console { col: 0, row: (c.rows - 1) as usize, ..c }, seq![ConsoleOp::ScrollUp { rows: CHAR_HEIGHT, bg: c.bg }])
    } else {
        (Console { col: 0, row: (c.row + 1) as usize, ..c }, Seq::empty())
    }
}

/// The glyph for `byte` at the cursor of `c`.
pub open spec fn glyph_at(c: Console, byte: u8) -> ConsoleOp {
    ConsoleOp::Glyph { x: (c.col * CHAR_WIDTH) as usize, y: (c.row * CHAR_HEIGHT) as usize, byte, fg: c.fg, bg: c.bg }
}

/// The console after writing `byte`, and the drawing it needs: a newline,
/// a carriage return, a backspace that blanks the previous cell, or a glyph
/// at the cursor (wrapping to the next row first when the row is full).
pub open spec fn spec_write_byte(c: Console, byte: u8) -> (Console, Seq<ConsoleOp>) {
    if byte == 10 {
        spec_newline(c)
    } else if byte == 13 {
        (Console { col: 0, ..c }, Seq::empty())
    } else if byte == 8 {
        if c.col > 0 {
            let c2 = Console { col: (c.col - 1) as usize, ..c };
            (c2, seq![glyph_at(c2, 32)])
        } else {
            (c, Seq::empty())
        }
    } else {
        let (c2, ops) = if c.col >= c.cols { spec_newline(c) } else { (c, Seq::empty()) };
        (Console { col: (c2.col + 1) as usize, ..c2 }, ops.push(glyph_at(c2, byte)))
    }
}

/// The byte written for `b`: printable ASCII, newline and carriage return
/// as they are, anything else as `?`.
pub open spec fn sanitize(b: u8) -> u8 {
    if (0x20 <= b && b <= 0x7E) || b == 10 || b == 13 { b } else { 63 }
}

/// The console after writing the bytes `bs` in turn, and the drawing needed.
pub open spec fn spec_write_bytes(c: Console, bs: Seq<u8>) -> (Console, Seq<ConsoleOp>)
    decreases bs.len(),
{
    if bs.len() == 0 {
        (c, Seq::empty())
    } else {
        let (c1, ops1) = spec_write_bytes(c, bs.drop_last());
        let (c2, ops2) = spec_write_byte(c1, sanitize(bs.last()));
        (c2, ops1 + ops2)
    }
}

impl Console {
    /// At least one cell; the cursor on screen (its column may sit just
    /// past the last cell until the next glyph wraps); pixel coordinates fit.
    pub open spec fn wf(&self) -> bool {
        &&& 1 <= self.cols
        &&& 1 <= self.rows
        &&& self.col <= self.cols
        &&& self.row < self.rows
        &&& self.cols * CHAR_WIDTH <= usize::MAX
        &&& self.rows * CHAR_HEIGHT <= usize::MAX
    }

    /// A console filling a framebuffer of the given size, in white on black,
    /// with the cursor at the top left.
    pub fn new(fb_width: usize, fb_height: usize) -> (r: Console)
        requires
            fb_width >= CHAR_WIDTH,
            fb_height >= CHAR_HEIGHT,
        ensures
            r.wf(),
            r.col == 0 && r.row == 0,
            r.cols == fb_width / CHAR_WIDTH,
            r.rows == fb_height / CHAR_HEIGHT,
            r.fg == (255u8, 255u8, 255u8),
            r.bg == (0u8, 0u8, 0u8),
    {
        Console {
            col: 0,
            row: 0,
            cols: fb_width / CHAR_WIDTH,
            rows: fb_height / CHAR_HEIGHT,
            fg: (255, 255, 255),
            bg: (0, 0, 0),
        }
    }

    pub fn set_fg(&mut self, r: u8, g: u8, b: u8)
        ensures
            *final(self) == (Console { fg: (r, g, b), ..*old(self) }),
    {
        self.fg = (r, g, b);
    }

    pub fn set_bg(&mut self, r: u8, g: u8, b: u8)
        ensures
            *final(self) == (Console { bg: (r, g, b), ..*old(self) }),
    {
        self.bg = (r, g, b);
    }

    pub fn fg(&self) -> (r: Rgb)
        ensures
            r == self.fg,
    {
        self.fg
    }

    pub fn bg(&self) -> (r: Rgb)
        ensures
            r == self.bg,
    {
        self.bg
    }

    pub fn column_position(&self) -> (r: usize)
        ensures
            r == self.col,
    {
        self.col
    }

    fn render_char(&self, byte: u8) -> (r: ConsoleOp)
        requires
            self.wf(),
            self.col < self.cols,
        ensures
            r == glyph_at(*self, byte),
    {
        proof {
            assert(self.col * CHAR_WIDTH <= self.cols * CHAR_WIDTH) by (nonlinear_arith)
                requires self.col < self.cols;
            assert(self.row * CHAR_HEIGHT <= self.rows * CHAR_HEIGHT) by (nonlinear_arith)
                requires self.row < self.rows;
        }
        ConsoleOp::Glyph { x: self.col * CHAR_WIDTH, y: self.row * CHAR_HEIGHT, byte, fg: self.fg, bg: self.bg }
    }

    fn newline(&mut self) -> (r: Vec<ConsoleOp>)
        requires
            old(self).wf(),
        ensures
            final(self).wf(),
            (*final(self), r@) == spec_newline(*old(self)),
    {
        let mut ops: Vec<ConsoleOp> = Vec::new();
        self.col = 0;
        if self.row + 1 >= self.rows {
            ops.push(self.scroll());
            self.row = self.rows - 1;
        } else {
            self.row = self.row + 1;
        }
        assert(ops@ =~= spec_newline(*old(self)).1);
        ops
    }

    fn scroll(&self) -> (r: ConsoleOp)
        ensures
            r == (ConsoleOp::ScrollUp { rows: CHAR_HEIGHT, bg: self.bg }),
    {
        ConsoleOp::ScrollUp { rows: CHAR_HEIGHT, bg: self.bg }
    }

    /// Writes one byte, and returns the drawing it needs.
    pub fn write_byte(&mut self, byte: u8) -> (r: Vec<ConsoleOp>)
        requires
            old(self).wf(),
        ensures
            final(self).wf(),
            (*final(self), r@) == spec_write_byte(*old(self), byte),
    {
        if byte == 10 {
            self.newline()
        } else if byte == 13 {
            self.col = 0;
            Vec::new()
        } else if byte == 8 {
            let mut ops: Vec<ConsoleOp> = Vec::new();
            if self.col > 0 {
                self.col = self.col - 1;
                ops.push(self.render_char(32));
            }
            assert(ops@ =~= spec_write_byte(*old(self), byte).1);
            ops
        } else {
            let mut ops: Vec<ConsoleOp> = if self.col >= self.cols { self.newline() } else { Vec::new() };
            ops.push(self.render_char(byte));
            self.col = self.col + 1;
            proof {
                let (c2, ops0) = if old(self).col >= old(self).cols { spec_newline(*old(self)) } else { (*old(self), Seq::<ConsoleOp>::empty()) };
                assert(ops@ =~= ops0.push(glyph_at(c2, byte)));
            }
            ops
        }
    }

    /// Writes the bytes of `s`, printable ASCII, newline and carriage return
    /// as they are and any other byte as `?`; returns the drawing needed.
    pub fn write_string(&mut self, s: &str) -> (r: Vec<ConsoleOp>)
        requires
            old(self).wf(),
        ensures
            final(self).wf(),
            (*final(self), r@) == spec_write_bytes(*old(self), s.spec_bytes()),
    {
        let bytes = s.as_bytes();
        let mut ops: Vec<ConsoleOp> = Vec::new();
        let mut i: usize = 0;
        while i < bytes.len()
            invariant
                self.wf(),
                bytes@ == s.spec_bytes(),
                0 <= i <= bytes@.len(),
                (*self, ops@) == spec_write_bytes(*old(self), bytes@.subrange(0, i as int)),
            decreases bytes@.len() - i,
        {
            let b = bytes[i];
            let c = if (0x20 <= b && b <= 0x7E) || b == 10 || b == 13 { b } else { 63u8 };
            let more = self.write_byte(c);
            let ghost prev = ops@;
            let mut more = more;
            ops.append(&mut more);
            proof {
                let pre1 = bytes@.subrange(0, i + 1);
                assert(pre1.drop_last() =~= bytes@.subrange(0, i as int));
                assert(pre1.last() == b);
            }
            i = i + 1;
        }
        assert(bytes@.subrange(0, i as int) =~= bytes@);
        ops
    }

    /// Resets the cursor to the top left, and returns the fill that clears
    /// the screen to the background color.
    pub fn clear(&mut self) -> (r: ConsoleOp)
        requires
            old(self).wf(),
        ensures
            final(self).wf(),
            *final(self) == (Console { col: 0, row: 0, ..*old(self) }),
            r == (ConsoleOp::Fill { color: old(self).bg }),
    {
        self.col = 0;
        self.row = 0;
        ConsoleOp::Fill { color: self.bg }
    }
}

/// The console for a framebuffer of the given size.
pub fn init(fb_width: usize, fb_height: usize) -> (r: Console)
    requires
        fb_width >= CHAR_WIDTH,
        fb_height >= CHAR_HEIGHT,
    ensures
        r == Console::new_spec(fb_width, fb_height),
        r.wf(),
{
    Console::new(fb_width, fb_height)
}

impl Console {
    pub open spec fn new_spec(fb_width: usize, fb_height: usize) -> Console {
        Console {
            col: 0,
            row: 0,
            cols: fb_width / CHAR_WIDTH,
            rows: fb_height / CHAR_HEIGHT,
            fg: (255u8, 255u8, 255u8),
            bg: (0u8, 0u8, 0u8),
        }
    }
}

} // verus!
