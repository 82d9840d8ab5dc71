//! The word scanner: the next word at or after a position of a line.
//!
//! A word is a maximal run of word characters. In front of it separators are
//! skipped; it ends in front of the first separator or terminator after it,
//! or with the line.

use vstd::prelude::*;
use crate::chars::{is_separator, is_word_char, separator, word_char, TERMINATOR};
use crate::line::Line;

verus! {

/// The first position at or after `from` that holds no separator: the
/// position where the next word would begin. Beyond the line it is `from`.
pub open spec fn word_start(text: Seq<char>, from: int) -> int
    decreases text.len() - from,
{
    if 0 <= from < text.len() && is_separator(text[from]) {
        word_start(text, from + 1)
    } else {
        from
    }
}

/// The first position at or after `from` that holds no word character: the
/// position where a word that begins at `from` ends. Beyond the line it is
/// `from`.
pub open spec fn word_end(text: Seq<char>, from: int) -> int
    decreases text.len() - from,
{
    if 0 <= from < text.len() && is_word_char(text[from]) {
        word_end(text, from + 1)
    } else {
        from
    }
}

/// The next word of `text` at or after `from`, and the position where the
/// scan stopped. The word is empty when the terminator or the end of the line
/// comes before any word character.
pub open spec fn next_word(text: Seq<char>, from: int) -> (Seq<char>, int) {
    let start = word_start(text, from);
    let end = word_end(text, start);
    (
        if start < end {
            text.subrange(start, end)
        } else {
            Seq::empty()
        },
        end,
    )
}

/// A text that the scanner reads back as one word: not empty, and made of
/// word characters only.
pub open spec fn is_word(text: Seq<char>) -> bool {
    &&& text.len() > 0
    &&& forall|i: int| 0 <= i < text.len() ==> is_word_char(#[trigger] text[i])
}

/// What the start of a word is: nothing but separators lies between `from`
/// and it, and no separator stands at it.
pub proof fn lemma_word_start(text: Seq<char>, from: int)
    requires
        0 <= from <= text.len(),
    ensures
        from <= word_start(text, from) <= text.len(),
        forall|i: int| from <= i < word_start(text, from) ==> is_separator(#[trigger] text[i]),
        word_start(text, from) < text.len() ==> !is_separator(text[word_start(text, from)]),
    decreases text.len() - from,
{
    if from < text.len() && is_separator(text[from]) {
        lemma_word_start(text, from + 1);
    }
}

/// What the end of a word is: nothing but word characters lies between
/// `from` and it, and no word character stands at it.
pub proof fn lemma_word_end(text: Seq<char>, from: int)
    requires
        0 <= from <= text.len(),
    ensures
        from <= word_end(text, from) <= text.len(),
        forall|i: int| from <= i < word_end(text, from) ==> is_word_char(#[trigger] text[i]),
        word_end(text, from) < text.len() ==> !is_word_char(text[word_end(text, from)]),
    decreases text.len() - from,
{
    if from < text.len() && is_word_char(text[from]) {
        lemma_word_end(text, from + 1);
    }
}

/// The start of a word is the only position of which `lemma_word_start`
/// holds.
pub proof fn lemma_word_start_is(text: Seq<char>, from: int, start: int)
    requires
        0 <= from <= start <= text.len(),
        forall|i: int| from <= i < start ==> is_separator(#[trigger] text[i]),
        start < text.len() ==> !is_separator(text[start]),
    ensures
        word_start(text, from) == start,
    decreases start - from,
{
    if from < start {
        assert(is_separator(text[from]));
        lemma_word_start_is(text, from + 1, start);
    }
}

/// The end of a word is the only position of which `lemma_word_end` holds.
pub proof fn lemma_word_end_is(text: Seq<char>, from: int, end: int)
    requires
        0 <= from <= end <= text.len(),
        forall|i: int| from <= i < end ==> is_word_char(#[trigger] text[i]),
        end < text.len() ==> !is_word_char(text[end]),
    ensures
        word_end(text, from) == end,
    decreases end - from,
{
    if from < end {
        assert(is_word_char(text[from]));
        lemma_word_end_is(text, from + 1, end);
    }
}

/// The scan of a word within the line: it moves forward only, the word it
/// yields holds word characters only, and the word is empty exactly when the
/// scan met the terminator or the end of the line before any word character.
/// A scan that begins on a separator or on a word character moves.
pub proof fn lemma_next_word(text: Seq<char>, from: int)
    requires
        0 <= from <= text.len(),
    ensures
        from <= word_start(text, from) <= next_word(text, from).1 <= text.len(),
        next_word(text, from).0.len() == next_word(text, from).1 - word_start(text, from),
        forall|i: int|
            0 <= i < next_word(text, from).0.len() ==> is_word_char(
                #[trigger] next_word(text, from).0[i],
            ),
        next_word(text, from).0.len() == 0 <==> (word_start(text, from) == text.len()
            || text[word_start(text, from)] == TERMINATOR),
        next_word(text, from).1 < text.len() ==> !is_word_char(text[next_word(text, from).1]),
        from < text.len() && text[from] != TERMINATOR ==> from < next_word(text, from).1,
{
    lemma_word_start(text, from);
    let start = word_start(text, from);
    lemma_word_end(text, start);
    let end = word_end(text, start);
    if from < text.len() && text[from] != TERMINATOR {
        if !is_separator(text[from]) {
            assert(start == from);
            assert(is_word_char(text[from]));
        }
    }
    if start < end {
        assert forall|i: int| 0 <= i < next_word(text, from).0.len() implies is_word_char(
            #[trigger] next_word(text, from).0[i],
        ) by {
            assert(next_word(text, from).0[i] == text[start + i]);
        }
    }
}

/// A scan that begins beyond the line finds nothing and stays where it is.
pub proof fn lemma_next_word_beyond(text: Seq<char>, from: int)
    requires
        from >= text.len(),
    ensures
        next_word(text, from) == (Seq::<char>::empty(), from),
{
}

/// The positions where the next word at or after `from` begins and ends.
pub fn word_bounds(line: &Line, from: usize) -> (bounds: (usize, usize))
    ensures
        bounds.0 == word_start(line@, from as int),
        bounds.1 == word_end(line@, bounds.0 as int),
{
    let len = line.len();
    if from >= len {
        return (from, from);
    }
    let mut start = from;
    loop
        invariant
            len == line@.len(),
            from <= start <= len,
            word_start(line@, start as int) == word_start(line@, from as int),
        ensures
            from <= start <= len,
            start == word_start(line@, from as int),
        decreases len - start,
    {
        match line.peek(start) {
            Some(c) => {
                if separator(c) {
                    start += 1;
                } else {
                    break;
                }
            },
            None => {
                break;
            },
        }
    }
    let mut end = start;
    loop
        invariant
            len == line@.len(),
            start <= end <= len,
            word_end(line@, end as int) == word_end(line@, start as int),
        ensures
            start <= end <= len,
            end == word_end(line@, start as int),
        decreases len - end,
    {
        match line.peek(end) {
            Some(c) => {
                if word_char(c) {
                    end += 1;
                } else {
                    break;
                }
            },
            None => {
                break;
            },
        }
    }
    (start, end)
}

/// Reads the next word of `line` at or after `from`.
pub fn next_word_in(line: &Line, from: usize) -> (found: (String, usize))
    ensures
        found.0@ == next_word(line@, from as int).0,
        found.1 == next_word(line@, from as int).1,
{
    let (start, end) = word_bounds(line, from);
    if start < end {
        proof {
            lemma_word_end_within(line@, start as int);
        }
        (line.slice(start, end), end)
    } else {
        (String::new(), end)
    }
}

/// A word ends within the line, wherever it begins.
proof fn lemma_word_end_within(text: Seq<char>, from: int)
    ensures
        from < word_end(text, from) ==> 0 <= from && word_end(text, from) <= text.len(),
    decreases text.len() - from,
{
    if 0 <= from < text.len() && is_word_char(text[from]) {
        lemma_word_end_within(text, from + 1);
    }
}

/// Reads the next word of `input` at or after the position `index`, skipping
/// the separators in front of it. Returns the word and the position where the
/// scan stopped: that of the separator or terminator that ended the word, or
/// the length of the line. A scan that begins beyond the line returns the
/// empty word and `index`.
pub fn read_next_word(input: &String, index: usize) -> (found: (String, usize))
    ensures
        found.0@ == next_word(input@, index as int).0,
        found.1 == next_word(input@, index as int).1,
{
    let line = Line::new(input.as_str());
    next_word_in(&line, index)
}

} // verus!
