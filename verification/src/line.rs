//! An input line as an immutable sequence of characters.
//!
//! Positions in a line count characters, not bytes. A `Line` decodes its text
//! once, so that looking at a position takes constant time, and keeps the
//! text itself to cut parts out of it.

use vstd::prelude::*;
use vstd::std_specs::iter::IteratorSpec;
use vstd::string::StrSliceExecFns;

verus! {

/// A line of input, viewed as its sequence of characters.
pub struct Line<'a> {
    text: &'a str,
    chars: Vec<char>,
}

impl<'a> View for Line<'a> {
    type V = Seq<char>;

    closed spec fn view(&self) -> Seq<char> {
        self.text@
    }
}

impl<'a> Line<'a> {
    #[verifier::type_invariant]
    spec fn decoded(&self) -> bool {
        self.chars@ == self.text@
    }

    /// Decodes `text`.
    pub fn new(text: &'a str) -> (line: Self)
        ensures
            line@ == text@,
    {
        broadcast use vstd::string::axiom_spec_iter;

        let mut chars: Vec<char> = Vec::new();
        for c in it: text.chars()
            invariant
                it.seq() == text@,
                chars@ == it.seq().take(it.index()),
        {
            chars.push(c);
            assert(it.seq().take(it.index() + 1) =~= it.seq().take(it.index()).push(c));
        }
        assert(chars@ =~= text@);
        Line { text, chars }
    }

    /// The number of characters in the line.
    pub fn len(&self) -> (n: usize)
        ensures
            n == self@.len(),
    {
        proof {
            use_type_invariant(self);
        }
        self.chars.len()
    }

    /// The character at position `at`, if the line is that long.
    pub fn peek(&self, at: usize) -> (c: Option<char>)
        ensures
            c == if at < self@.len() {
                Some(self@[at as int])
            } else {
                None
            },
    {
        proof {
            use_type_invariant(self);
        }
        if at < self.chars.len() {
            Some(self.chars[at])
        } else {
            None
        }
    }

    /// The characters from position `from` up to, not including, `to`.
    pub fn slice(&self, from: usize, to: usize) -> (part: String)
        requires
            from <= to <= self@.len(),
        ensures
            part@ == self@.subrange(from as int, to as int),
    {
        self.text.substring_char(from, to).to_owned()
    }
}

} // verus!
