//! The buffer in which the lines of one command gather.
//!
//! A meta-command is one line. A statement may run over several lines and is
//! whole when its last character is the terminator. Each line is trimmed
//! before it is taken in; the lines of a statement are joined by a newline.

use vstd::prelude::*;
use vstd::string::StringExecFns;
use crate::chars::{META_MARKER, TERMINATOR};
use crate::line::Line;
use crate::trim::{trim, trimmed};

verus! {

/// The text gathered so far for one command.
pub struct InputBuffer {
    buffer: String,
}

impl View for InputBuffer {
    type V = Seq<char>;

    closed spec fn view(&self) -> Seq<char> {
        self.buffer@
    }
}

/// Whether a gathered text needs no further line: it is empty, it is a
/// meta-command, or it ends with the terminator.
pub open spec fn is_whole(text: Seq<char>) -> bool {
    text.len() == 0 || text[0] == META_MARKER || text.last() == TERMINATOR
}

/// The gathered text after one more line came in: the trimmed line itself if
/// nothing was gathered before, else what was gathered, a newline, and the
/// trimmed line.
pub open spec fn with_line(text: Seq<char>, line: Seq<char>) -> Seq<char> {
    if text.len() == 0 {
        trimmed(line)
    } else {
        text + seq!['\n'] + trimmed(line)
    }
}

impl InputBuffer {
    /// An empty buffer.
    pub fn new() -> (buffer: Self)
        ensures
            buffer@ == Seq::<char>::empty(),
    {
        Self { buffer: String::new() }
    }

    /// Forgets what was gathered.
    pub fn clear(&mut self)
        ensures
            final(self)@ == Seq::<char>::empty(),
    {
        self.buffer = String::new();
    }

    /// Whether the command is whole, so that no further line is to be read.
    pub fn is_whole(&self) -> (whole: bool)
        ensures
            whole == is_whole(self@),
    {
        let line = Line::new(self.buffer.as_str());
        let len = line.len();
        if len == 0 {
            return true;
        }
        line.peek(0) == Some(META_MARKER) || line.peek(len - 1) == Some(TERMINATOR)
    }

    /// Takes in one more line as it was read, and tells whether the command
    /// is whole now.
    pub fn push_line(&mut self, line: &str) -> (whole: bool)
        ensures
            final(self)@ == with_line(old(self)@, line@),
            whole == is_whole(final(self)@),
    {
        let rest = trim(line);
        if self.buffer.as_str().unicode_len() == 0 {
            assert(self.buffer@ =~= Seq::<char>::empty());
            self.buffer = rest;
        } else {
            proof {
                reveal_strlit("\n");
            }
            self.buffer.append("\n");
            assert("\n"@ =~= seq!['\n']);
            self.buffer.append(rest.as_str());
        }
        self.is_whole()
    }

    /// The text gathered so far.
    pub fn contents(&self) -> (text: &String)
        ensures
            text@ == self@,
    {
        &self.buffer
    }
}

} // verus!
