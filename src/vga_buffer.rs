//! Text output: column tracking for printed text, and the bytes sent to the
//! serial terminal for each byte printed.
use vstd::prelude::*;
use vstd::string::StringSliceAdditionalSpecFns;

verus! {

/// Width of a text line, in characters.
pub const BUFFER_WIDTH: usize = 80;

pub struct Writer {
    pub column_position: usize,
}

/// The column after printing `byte` at column `col`.
pub open spec fn next_column(col: usize, byte: u8) -> usize {
    if byte == 10 {
        0
    } else if byte == 8 {
        if col > 0 { (col - 1) as usize } else { 0 }
    } else if col + 1 >= BUFFER_WIDTH {
        0
    } else {
        (col + 1) as usize
    }
}

/// The column after printing the bytes `bs` in turn from column `col`.
pub open spec fn column_after(col: usize, bs: Seq<u8>) -> usize
    decreases bs.len(),
{
    if bs.len() == 0 { col } else { next_column(column_after(col, bs.drop_last()), bs.last()) }
}

/// The byte printed for `b`: printable ASCII and newline as they are,
/// anything else as `?`.
pub open spec fn printable(b: u8) -> u8 {
    if (0x20 <= b && b <= 0x7E) || b == 10 { b } else { 63 }
}

/// The serial bytes for `byte`: a backspace erases the previous character
/// (back, space, back).
pub fn serial_bytes(byte: u8) -> (r: Vec<u8>)
    ensures
        r@ == (if byte == 8 { seq![8u8, 32u8, 8u8] } else { seq![byte] }),
{
    let mut r: Vec<u8> = Vec::new();
    if byte == 0x08 {
        r.push(0x08);
        r.push(32u8);
        r.push(0x08);
    } else {
        r.push(byte);
    }
    r
}

impl Writer {
    pub fn new() -> (r: Writer)
        ensures
            r.column_position == 0,
    {
        Writer { column_position: 0 }
    }

    /// Records `byte` as printed and returns what goes to the serial port.
    pub fn write_byte(&mut self, byte: u8) -> (r: Vec<u8>)
        requires
            old(self).column_position < BUFFER_WIDTH,
        ensures
            final(self).column_position == next_column(old(self).column_position, byte),
            final(self).column_position < BUFFER_WIDTH,
            r@ == (if byte == 8 { seq![8u8, 32u8, 8u8] } else { seq![byte] }),
    {
        let out = serial_bytes(byte);
        if byte == 10u8 {
            self.column_position = 0;
        } else if byte == 0x08 {
            if self.column_position > 0 {
                self.column_position = self.column_position - 1;
            }
        } else {
            self.column_position = self.column_position + 1;
            if self.column_position >= BUFFER_WIDTH {
                self.column_position = 0;
            }
        }
        out
    }

    /// Prints `s`: records each byte, non-printable ones as `?`, and
    /// returns the bytes printed.
    pub fn write_string(&mut self, s: &str) -> (r: Vec<u8>)
        requires
            old(self).column_position < BUFFER_WIDTH,
        ensures
            final(self).column_position < BUFFER_WIDTH,
            r@ == s.spec_bytes().map_values(|b: u8| printable(b)),
            final(self).column_position == column_after(old(self).column_position, r@),
    {
        let bytes = s.as_bytes();
        let mut out: Vec<u8> = Vec::new();
        let mut i: usize = 0;
        while i < bytes.len()
            invariant
                self.column_position < BUFFER_WIDTH,
                bytes@ == s.spec_bytes(),
                0 <= i <= bytes@.len(),
                out@ == bytes@.subrange(0, i as int).map_values(|b: u8| printable(b)),
                self.column_position == column_after(old(self).column_position, out@),
            decreases bytes@.len() - i,
        {
            let b = bytes[i];
            let c = if (0x20 <= b && b <= 0x7E) || b == 10u8 { b } else { 63u8 };
            self.write_byte(c);
            let ghost prev = out@;
            out.push(c);
            assert(out@.drop_last() =~= prev);
            i = i + 1;
            assert(out@ =~= bytes@.subrange(0, i as int).map_values(|b: u8| printable(b)));
        }
        assert(bytes@.subrange(0, i as int) =~= bytes@);
        out
    }
}

} // verus!
