//! Character classes of the command language.
//!
//! The language knows four kinds of characters: separators, which end a word
//! and are skipped in front of one; the terminator, which ends a statement;
//! the two parentheses, which frame a list; and everything else, which makes
//! up words. Two further classes come from Unicode and are only named here:
//! alphabetic characters and whitespace.

use vstd::prelude::*;

verus! {

/// The character that introduces a meta-command.
pub const META_MARKER: char = '.';

/// The character that ends a statement.
pub const TERMINATOR: char = ';';

/// The character that opens a list.
pub const LIST_OPEN: char = '(';

/// The character that closes a list.
pub const LIST_CLOSE: char = ')';

/// Whether `c` is alphabetic in the sense of Unicode (`Alphabetic`).
pub uninterp spec fn alphabetic(c: char) -> bool;

/// Whether `c` is whitespace in the sense of Unicode (`White_Space`).
pub uninterp spec fn whitespace(c: char) -> bool;

/// `char::is_alphabetic` tells whether a character is alphabetic in the sense
/// of Unicode. What is alphabetic is a table of the Unicode standard; it is
/// named here, not spelled out, so nothing is claimed about any particular
/// character.
pub assume_specification[ char::is_alphabetic ](c: char) -> (r: bool)
    ensures
        r == alphabetic(c),
;

/// `char::is_whitespace` tells whether a character is whitespace in the
/// sense of Unicode. What is whitespace is a table of the Unicode standard; it
/// is named here, not spelled out, so nothing is claimed about any particular
/// character.
pub assume_specification[ char::is_whitespace ](c: char) -> (r: bool)
    ensures
        r == whitespace(c),
;

/// Space, tab and newline: the characters skipped around a list.
pub open spec fn is_blank(c: char) -> bool {
    c == ' ' || c == '\t' || c == '\n'
}

/// The characters that separate words: the blanks and the comma.
pub open spec fn is_separator(c: char) -> bool {
    is_blank(c) || c == ','
}

/// The characters a word is made of: everything but separators and the
/// terminator. Parentheses count: a word may hold them.
pub open spec fn is_word_char(c: char) -> bool {
    !is_separator(c) && c != TERMINATOR
}

/// The lower-case form of an ASCII capital letter; any other character is
/// left as it is.
pub open spec fn fold_case(c: char) -> char {
    if 'A' <= c && c <= 'Z' {
        ((c as u8) + 32) as char
    } else {
        c
    }
}

/// Whether every character of `text` is Unicode whitespace, so that nothing
/// is left of `text` once surrounding whitespace is trimmed away. The empty
/// text is blank.
pub open spec fn is_blank_text(text: Seq<char>) -> bool {
    forall|i: int| 0 <= i < text.len() ==> whitespace(#[trigger] text[i])
}

pub fn blank(c: char) -> (r: bool)
    ensures
        r == is_blank(c),
{
    c == ' ' || c == '\t' || c == '\n'
}

pub fn separator(c: char) -> (r: bool)
    ensures
        r == is_separator(c),
{
    blank(c) || c == ','
}

pub fn word_char(c: char) -> (r: bool)
    ensures
        r == is_word_char(c),
{
    !separator(c) && c != TERMINATOR
}

pub fn to_lower(c: char) -> (r: char)
    ensures
        r == fold_case(c),
{
    if 'A' <= c && c <= 'Z' {
        ((c as u8) + 32) as char
    } else {
        c
    }
}

/// Folding is idempotent, and it never turns a character of one class into a
/// character of another: only letters change, and only into letters.
pub proof fn lemma_fold_case_keeps_class(c: char)
    ensures
        fold_case(fold_case(c)) == fold_case(c),
        is_blank(fold_case(c)) == is_blank(c),
        is_separator(fold_case(c)) == is_separator(c),
        is_word_char(fold_case(c)) == is_word_char(c),
        (fold_case(c) == META_MARKER) == (c == META_MARKER),
        (fold_case(c) == LIST_OPEN) == (c == LIST_OPEN),
        (fold_case(c) == LIST_CLOSE) == (c == LIST_CLOSE),
{
}

} // verus!
