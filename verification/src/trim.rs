//! Trimming: a text without the whitespace at its two ends.

use vstd::prelude::*;
use crate::chars::{is_blank_text, whitespace};
use crate::line::Line;

verus! {

/// The first position at or after `from` that holds no whitespace.
pub open spec fn content_start(text: Seq<char>, from: int) -> int
    decreases text.len() - from,
{
    if 0 <= from < text.len() && whitespace(text[from]) {
        content_start(text, from + 1)
    } else {
        from
    }
}

/// The last position at or before `to` that has no whitespace in front of it.
pub open spec fn content_end(text: Seq<char>, to: int) -> int
    decreases to,
{
    if 0 < to <= text.len() && whitespace(text[to - 1]) {
        content_end(text, to - 1)
    } else {
        to
    }
}

/// `text` without the whitespace at its beginning and at its end.
pub open spec fn trimmed(text: Seq<char>) -> Seq<char> {
    let start = content_start(text, 0);
    let end = content_end(text, text.len() as int);
    if start < end {
        text.subrange(start, end)
    } else {
        Seq::empty()
    }
}

/// What the start of the content is: only whitespace lies in front of it,
/// and none stands at it.
pub proof fn lemma_content_start(text: Seq<char>, from: int)
    requires
        0 <= from <= text.len(),
    ensures
        from <= content_start(text, from) <= text.len(),
        forall|i: int| from <= i < content_start(text, from) ==> whitespace(#[trigger] text[i]),
        content_start(text, from) < text.len() ==> !whitespace(text[content_start(text, from)]),
    decreases text.len() - from,
{
    if from < text.len() && whitespace(text[from]) {
        lemma_content_start(text, from + 1);
    }
}

/// What the end of the content is: only whitespace lies behind it, and none
/// stands directly in front of it.
pub proof fn lemma_content_end(text: Seq<char>, to: int)
    requires
        0 <= to <= text.len(),
    ensures
        0 <= content_end(text, to) <= to,
        forall|i: int| content_end(text, to) <= i < to ==> whitespace(#[trigger] text[i]),
        0 < content_end(text, to) ==> !whitespace(text[content_end(text, to) - 1]),
    decreases to,
{
    if 0 < to && whitespace(text[to - 1]) {
        lemma_content_end(text, to - 1);
    }
}

/// Nothing is left of a text after trimming exactly if every character of it
/// is whitespace. What is left begins and ends with a character that is not
/// whitespace.
pub proof fn lemma_trimmed(text: Seq<char>)
    ensures
        trimmed(text).len() == 0 <==> is_blank_text(text),
        trimmed(text).len() > 0 ==> !whitespace(trimmed(text).first()) && !whitespace(
            trimmed(text).last(),
        ),
{
    lemma_content_start(text, 0);
    lemma_content_end(text, text.len() as int);
    let start = content_start(text, 0);
    let end = content_end(text, text.len() as int);
    if start < end {
        assert(!whitespace(text[start]));
        assert(trimmed(text).first() == text[start]);
        assert(trimmed(text).last() == text[end - 1]);
    } else if start < text.len() {
        assert(whitespace(text[start]));
    } else {
        assert forall|i: int| 0 <= i < text.len() implies whitespace(#[trigger] text[i]) by {}
    }
}

/// Trims `text`.
pub fn trim(text: &str) -> (rest: String)
    ensures
        rest@ == trimmed(text@),
{
    let line = Line::new(text);
    let len = line.len();
    let mut start: usize = 0;
    loop
        invariant
            len == line@.len(),
            line@ == text@,
            start <= len,
            content_start(text@, start as int) == content_start(text@, 0),
        ensures
            start == content_start(text@, 0),
            start <= len,
        decreases len - start,
    {
        match line.peek(start) {
            Some(c) => {
                if c.is_whitespace() {
                    start += 1;
                } else {
                    break;
                }
            },
            None => {
                break;
            },
        }
    }
    let mut end: usize = len;
    loop
        invariant
            len == line@.len(),
            line@ == text@,
            end <= len,
            content_end(text@, end as int) == content_end(text@, len as int),
        ensures
            end == content_end(text@, len as int),
            end <= len,
        decreases end,
    {
        if end == 0 {
            break;
        }
        match line.peek(end - 1) {
            Some(c) => {
                if c.is_whitespace() {
                    end -= 1;
                } else {
                    break;
                }
            },
            None => {
                break;
            },
        }
    }
    if start < end {
        line.slice(start, end)
    } else {
        String::new()
    }
}

} // verus!
