//! The shell's command line: decoded key characters edit a line of at most
//! `MAX_CMD_LEN` printable ASCII characters.
use vstd::prelude::*;

verus! {

/// Longest command line, in characters.
pub const MAX_CMD_LEN: usize = 256;

/// What the shell does after a key.
#[derive(PartialEq, Eq, Debug)]
pub enum LineEvent {
    /// Nothing to show.
    Nothing,
    /// Show the character typed.
    Echo(char),
    /// Erase the last character shown.
    Erase,
    /// Run the line, which is now cleared.
    Submit(Vec<char>),
}

/// A character that the line accepts: printable ASCII.
pub open spec fn accepted(c: char) -> bool {
    0x20 <= (c as u32) && (c as u32) < 0x7F
}

/// The line after key `key`, and what to show, a submitted line being the
/// line before the key.
pub open spec fn spec_edit(line: Seq<char>, key: Option<char>, ev: LineEvent) -> (Seq<char>, bool) {
    match key {
        Some(c) => if c == '\n' {
            (Seq::empty(), ev matches LineEvent::Submit(v) && v@ == line)
        } else if c == '\u{8}' {
            if line.len() > 0 { (line.drop_last(), ev == LineEvent::Erase) } else { (line, ev == LineEvent::Nothing) }
        } else if accepted(c) && line.len() < MAX_CMD_LEN {
            (line.push(c), ev == LineEvent::Echo(c))
        } else {
            (line, ev == LineEvent::Nothing)
        },
        None => (line, ev == LineEvent::Nothing),
    }
}

pub struct LineEditor {
    line: Vec<char>,
}

impl LineEditor {
    /// The characters typed since the last submitted line.
    pub closed spec fn line(&self) -> Seq<char> {
        self.line@
    }

    pub fn new() -> (r: LineEditor)
        ensures
            r.line() == Seq::<char>::empty(),
    {
        LineEditor { line: Vec::new() }
    }

    /// Applies a decoded key to the line: Enter submits it, backspace removes
    /// the last character, a printable ASCII character is appended while the
    /// line is shorter than `MAX_CMD_LEN`; anything else is ignored.
    pub fn edit(&mut self, key: Option<char>) -> (r: LineEvent)
        ensures
            final(self).line() == spec_edit(old(self).line(), key, r).0,
            spec_edit(old(self).line(), key, r).1,
    {
        match key {
            Some(c) => {
                if c == '\n' {
                    let mut submitted: Vec<char> = Vec::new();
                    std::mem::swap(&mut submitted, &mut self.line);
                    LineEvent::Submit(submitted)
                } else if c == '\u{8}' {
                    if self.line.len() > 0 {
                        self.line.pop();
                        LineEvent::Erase
                    } else {
                        LineEvent::Nothing
                    }
                } else if 0x20 <= (c as u32) && (c as u32) < 0x7F && self.line.len() < MAX_CMD_LEN {
                    self.line.push(c);
                    LineEvent::Echo(c)
                } else {
                    LineEvent::Nothing
                }
            },
            None => LineEvent::Nothing,
        }
    }
}

} // verus!
