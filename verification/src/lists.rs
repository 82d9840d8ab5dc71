//! The list scanner: a parenthesised list of words, such as `(a, b, c)`.
//!
//! The scan is a small state machine. It starts in front of the list, enters
//! it at the opening parenthesis, and closes it when a word ends in the
//! closing parenthesis. At each position the first rule that applies decides:
//!
//! 1. the terminator stops the scan without success;
//! 2. in front of the list, and after it has closed, blanks are skipped;
//! 3. an opening parenthesis enters the list, or stops the scan without
//!    success when the list was entered before;
//! 4. a closing parenthesis stops the scan, with success if the list holds an
//!    element;
//! 5. after the list has closed anything else stops the scan without success;
//! 6. otherwise the next word is read. A word that ends in the closing
//!    parenthesis closes the list: what stands in front of the parenthesis
//!    becomes an element unless it is empty, and the scan goes on at the
//!    parenthesis. Any other word becomes an element as it is.

use vstd::prelude::*;
use crate::chars::{blank, is_blank, is_word_char, LIST_CLOSE, LIST_OPEN, TERMINATOR};
use crate::line::Line;
use crate::words::{is_word, lemma_next_word, next_word, word_bounds};

verus! {

/// Where a scan stands with respect to the list.
#[derive(Clone, Copy, Debug, PartialEq, Eq, Structural)]
pub enum ListState {
    /// No opening parenthesis has been seen.
    BeforeList,
    /// The list has been entered and not closed.
    InList,
    /// A word has closed the list.
    Closed,
}

/// The texts of a sequence of strings, in order.
pub open spec fn texts(items: Seq<String>) -> Seq<Seq<char>> {
    Seq::new(items.len(), |i: int| items[i]@)
}

/// The outcome of scanning `text` for a list from position `at` on, in state
/// `state` and with `elements` already gathered: whether a well-formed list
/// was found, the elements in order, and the position where the scan stopped.
pub open spec fn scan_list(
    text: Seq<char>,
    at: int,
    state: ListState,
    elements: Seq<Seq<char>>,
) -> (bool, Seq<Seq<char>>, int)
    decreases text.len() - at,
    via scan_list_moves_on
{
    if !(0 <= at < text.len()) {
        (false, elements, at)
    } else if text[at] == TERMINATOR {
        (false, elements, at)
    } else if state != ListState::InList && is_blank(text[at]) {
        scan_list(text, at + 1, state, elements)
    } else if text[at] == LIST_OPEN {
        if state == ListState::BeforeList {
            scan_list(text, at + 1, ListState::InList, elements)
        } else {
            (false, elements, at)
        }
    } else if text[at] == LIST_CLOSE {
        (elements.len() > 0, elements, at)
    } else if state == ListState::Closed {
        (false, elements, at)
    } else {
        let (word, end) = next_word(text, at);
        if word.len() > 0 && word.last() == LIST_CLOSE {
            let element = word.drop_last();
            scan_list(
                text,
                end - 1,
                ListState::Closed,
                if element.len() > 0 {
                    elements.push(element)
                } else {
                    elements
                },
            )
        } else {
            scan_list(text, end, state, elements.push(word))
        }
    }
}

#[via_fn]
proof fn scan_list_moves_on(
    text: Seq<char>,
    at: int,
    state: ListState,
    elements: Seq<Seq<char>>,
) {
    if 0 <= at < text.len() && text[at] != TERMINATOR {
        lemma_word_step(text, at);
    }
}

/// A word read at a position that holds neither the terminator nor, alone,
/// the closing parenthesis moves the scan: past the word, or onto the
/// parenthesis that closed it.
pub proof fn lemma_word_step(text: Seq<char>, at: int)
    requires
        0 <= at < text.len(),
        text[at] != TERMINATOR,
    ensures
        at < next_word(text, at).1 <= text.len(),
        next_word(text, at).0.len() > 0 && next_word(text, at).0.last() == LIST_CLOSE ==> {
            &&& text[next_word(text, at).1 - 1] == LIST_CLOSE
            &&& (text[at] != LIST_CLOSE ==> at < next_word(text, at).1 - 1)
        },
{
    lemma_next_word(text, at);
    let (word, end) = next_word(text, at);
    if word.len() > 0 {
        assert(word.last() == text[end - 1]);
    }
}

/// The outcome of scanning `text` for a list from position `from` on.
pub open spec fn next_list(text: Seq<char>, from: int) -> (bool, Seq<Seq<char>>, int) {
    scan_list(text, from, ListState::BeforeList, Seq::empty())
}

/// Once a word has closed the list, the scan stands on the closing
/// parenthesis and ends there: the list is well formed exactly if it holds an
/// element.
pub proof fn lemma_closed_list_ends(text: Seq<char>, at: int, elements: Seq<Seq<char>>)
    requires
        0 <= at < text.len(),
        text[at] == LIST_CLOSE,
    ensures
        forall|state: ListState| #[trigger]
            scan_list(text, at, state, elements) == (elements.len() > 0, elements, at),
{
}

/// A scan never moves backwards, never ends beyond the line unless it began
/// there, keeps what was gathered before it, and succeeds only on a closing
/// parenthesis with at least one element.
pub proof fn lemma_scan_list(
    text: Seq<char>,
    at: int,
    state: ListState,
    elements: Seq<Seq<char>>,
)
    requires
        0 <= at <= text.len(),
    ensures
        at <= scan_list(text, at, state, elements).2 <= text.len(),
        elements.len() <= scan_list(text, at, state, elements).1.len(),
        scan_list(text, at, state, elements).1.take(elements.len() as int) == elements,
        scan_list(text, at, state, elements).0 ==> {
            &&& scan_list(text, at, state, elements).2 < text.len()
            &&& text[scan_list(text, at, state, elements).2] == LIST_CLOSE
            &&& scan_list(text, at, state, elements).1.len() > 0
        },
    decreases text.len() - at,
{
    if !(0 <= at < text.len()) {
        assert(elements.take(elements.len() as int) =~= elements);
    } else if text[at] == TERMINATOR {
        assert(elements.take(elements.len() as int) =~= elements);
    } else if state != ListState::InList && is_blank(text[at]) {
        lemma_scan_list(text, at + 1, state, elements);
    } else if text[at] == LIST_OPEN {
        if state == ListState::BeforeList {
            lemma_scan_list(text, at + 1, ListState::InList, elements);
        } else {
            assert(elements.take(elements.len() as int) =~= elements);
        }
    } else if text[at] == LIST_CLOSE {
        assert(elements.take(elements.len() as int) =~= elements);
    } else if state == ListState::Closed {
        assert(elements.take(elements.len() as int) =~= elements);
    } else {
        lemma_word_step(text, at);
        let (word, end) = next_word(text, at);
        if word.len() > 0 && word.last() == LIST_CLOSE {
            let element = word.drop_last();
            let gathered = if element.len() > 0 {
                elements.push(element)
            } else {
                elements
            };
            lemma_scan_list(text, end - 1, ListState::Closed, gathered);
            let found = scan_list(text, end - 1, ListState::Closed, gathered).1;
            assert(found.take(elements.len() as int) =~= found.take(gathered.len() as int).take(
                elements.len() as int,
            ));
            assert(gathered.take(elements.len() as int) =~= elements);
        } else {
            let gathered = elements.push(word);
            lemma_scan_list(text, end, state, gathered);
            let found = scan_list(text, end, state, gathered).1;
            assert(found.take(elements.len() as int) =~= found.take(gathered.len() as int).take(
                elements.len() as int,
            ));
            assert(gathered.take(elements.len() as int) =~= elements);
        }
    }
}

/// Whether every text of `items` is a word.
pub open spec fn all_words(items: Seq<Seq<char>>) -> bool {
    forall|i: int| 0 <= i < items.len() ==> is_word(#[trigger] items[i])
}

/// No element of a well-formed list is empty, and none holds a separator or
/// the terminator, provided that this holds of what was gathered before.
pub proof fn lemma_list_elements_are_words(
    text: Seq<char>,
    at: int,
    state: ListState,
    elements: Seq<Seq<char>>,
)
    requires
        0 <= at <= text.len(),
        all_words(elements),
    ensures
        scan_list(text, at, state, elements).0 ==> all_words(scan_list(text, at, state, elements).1),
    decreases text.len() - at,
{
    if !(0 <= at < text.len()) {
    } else if text[at] == TERMINATOR {
    } else if state != ListState::InList && is_blank(text[at]) {
        lemma_list_elements_are_words(text, at + 1, state, elements);
    } else if text[at] == LIST_OPEN {
        if state == ListState::BeforeList {
            lemma_list_elements_are_words(text, at + 1, ListState::InList, elements);
        }
    } else if text[at] == LIST_CLOSE {
    } else if state == ListState::Closed {
    } else {
        lemma_word_step(text, at);
        lemma_next_word(text, at);
        let (word, end) = next_word(text, at);
        if word.len() > 0 && word.last() == LIST_CLOSE {
            let element = word.drop_last();
            if element.len() > 0 {
                assert forall|i: int| 0 <= i < element.len() implies is_word_char(
                    #[trigger] element[i],
                ) by {
                    assert(element[i] == word[i]);
                }
                lemma_pushed_words(elements, element);
                lemma_list_elements_are_words(
                    text,
                    end - 1,
                    ListState::Closed,
                    elements.push(element),
                );
            } else {
                lemma_list_elements_are_words(text, end - 1, ListState::Closed, elements);
            }
        } else if word.len() > 0 {
            lemma_pushed_words(elements, word);
            lemma_list_elements_are_words(text, end, state, elements.push(word));
        } else {
            // An empty word means the terminator or the end of the line: the
            // scan ends there without success.
            assert(end == text.len() || text[end] == TERMINATOR);
            assert(!scan_list(text, end, state, elements.push(word)).0);
        }
    }
}

/// Words stay words when one more is added.
proof fn lemma_pushed_words(elements: Seq<Seq<char>>, word: Seq<char>)
    requires
        all_words(elements),
        is_word(word),
    ensures
        all_words(elements.push(word)),
{
    assert forall|i: int| 0 <= i < elements.push(word).len() implies is_word(
        #[trigger] elements.push(word)[i],
    ) by {
        if i < elements.len() {
            assert(elements.push(word)[i] == elements[i]);
        }
    }
}

/// Scans `line` for a list from position `from` on.
pub fn next_list_in(line: &Line, from: usize) -> (found: (bool, Vec<String>, usize))
    ensures
        found.0 == next_list(line@, from as int).0,
        texts(found.1@) == next_list(line@, from as int).1,
        found.2 == next_list(line@, from as int).2,
{
    let len = line.len();
    let mut at = from;
    let mut state = ListState::BeforeList;
    let mut success = false;
    let mut elements: Vec<String> = Vec::new();
    assert(texts(elements@) =~= Seq::<Seq<char>>::empty());
    loop
        invariant_except_break
            !success,
            scan_list(line@, at as int, state, texts(elements@)) == next_list(line@, from as int),
        invariant
            len == line@.len(),
        ensures
            (success, texts(elements@), at as int) == next_list(line@, from as int),
        decreases len - at,
    {
        let c = match line.peek(at) {
            Some(c) => c,
            None => {
                break;
            },
        };
        if c == TERMINATOR {
            break;
        }
        if state != ListState::InList && blank(c) {
            at += 1;
            continue;
        }
        if c == LIST_OPEN {
            if state == ListState::BeforeList {
                state = ListState::InList;
                at += 1;
                continue;
            }
            break;
        }
        if c == LIST_CLOSE {
            success = elements.len() > 0;
            break;
        }
        if state == ListState::Closed {
            break;
        }
        proof {
            lemma_word_step(line@, at as int);
            lemma_next_word(line@, at as int);
        }
        let ghost gathered = texts(elements@);
        let ghost word = next_word(line@, at as int).0;
        let (start, end) = word_bounds(line, at);
        if start < end && line.peek(end - 1) == Some(LIST_CLOSE) {
            assert(word.last() == line@[end - 1]);
            if start < end - 1 {
                let element = line.slice(start, end - 1);
                assert(element@ =~= word.drop_last());
                elements.push(element);
                assert(texts(elements@) =~= gathered.push(word.drop_last()));
            }
            state = ListState::Closed;
            at = end - 1;
        } else {
            if start < end {
                assert(word.last() == line@[end - 1]);
                elements.push(line.slice(start, end));
            } else {
                elements.push(String::new());
            }
            assert(texts(elements@) =~= gathered.push(word));
            at = end;
        }
    }
    (success, elements, at)
}

/// Scans `input` for a parenthesised list from the position `index` on.
/// Returns whether a well-formed list was found, the elements gathered until
/// the scan stopped, and the position where it stopped.
pub fn read_next_list(input: &String, index: usize) -> (found: (bool, Vec<String>, usize))
    ensures
        found.0 == next_list(input@, index as int).0,
        texts(found.1@) == next_list(input@, index as int).1,
        found.2 == next_list(input@, index as int).2,
{
    let line = Line::new(input.as_str());
    next_list_in(&line, index)
}

} // verus!
