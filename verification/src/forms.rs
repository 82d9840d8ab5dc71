//! Written forms of lists, and what the list scanner makes of them.
//!
//! A list is written as an opening parenthesis, its items with a separator
//! between each two, and a closing parenthesis directly behind the last item:
//! `(a, b, c)` with the separator `, `, or `(a b c)` with a single space. The
//! scanner reads such a text back as exactly its items.

use vstd::prelude::*;
use crate::chars::{is_blank, is_separator, is_word_char, LIST_CLOSE, LIST_OPEN};
use crate::lists::{lemma_closed_list_ends, next_list, scan_list, ListState};
use crate::words::{is_word, lemma_word_end_is, lemma_word_start_is, next_word};

verus! {

/// Whether `part` stands in `text` at position `at`.
pub open spec fn occurs_at(text: Seq<char>, at: int, part: Seq<char>) -> bool {
    &&& 0 <= at
    &&& at + part.len() <= text.len()
    &&& forall|i: int| 0 <= i < part.len() ==> text[at + i] == #[trigger] part[i]
}

/// Whether the word that ends at `end` ends there for the scanner too: the
/// line ends there, or a separator or the terminator follows.
pub open spec fn word_stops_at(text: Seq<char>, end: int) -> bool {
    end == text.len() || (0 <= end < text.len() && !is_word_char(text[end]))
}

/// A run of separators, possibly empty.
pub open spec fn is_gap(text: Seq<char>) -> bool {
    forall|i: int| 0 <= i < text.len() ==> is_separator(#[trigger] text[i])
}

/// A text that can stand as an item of a list: a word that does not end in
/// the closing parenthesis.
pub open spec fn is_item(text: Seq<char>) -> bool {
    is_word(text) && text.last() != LIST_CLOSE
}

/// Whether every text of `items` can stand as an item of a list.
pub open spec fn all_items(items: Seq<Seq<char>>) -> bool {
    forall|i: int| 0 <= i < items.len() ==> is_item(#[trigger] items[i])
}

/// A text that can stand as the first item of a list, directly behind the
/// opening parenthesis: an item that does not begin with a parenthesis.
pub open spec fn is_first_item(text: Seq<char>) -> bool {
    is_item(text) && text[0] != LIST_OPEN && text[0] != LIST_CLOSE
}

/// The items written one after the other, `gap` in front of the first and
/// `separator` between each two, and the closing parenthesis behind the last.
pub open spec fn items_text(gap: Seq<char>, items: Seq<Seq<char>>, separator: Seq<char>) -> Seq<
    char,
>
    recommends
        items.len() > 0,
    decreases items.len(),
{
    if items.len() <= 1 {
        gap + items[0] + seq![LIST_CLOSE]
    } else {
        gap + items[0] + items_text(separator, items.drop_first(), separator)
    }
}

/// The list of `items` as it is written with `separator` between the items.
pub open spec fn list_text(items: Seq<Seq<char>>, separator: Seq<char>) -> Seq<char>
    recommends
        items.len() > 0,
{
    seq![LIST_OPEN] + items_text(Seq::empty(), items, separator)
}

/// A part of a text that stands in it stands there piece by piece.
pub proof fn lemma_occurs_split(text: Seq<char>, at: int, left: Seq<char>, right: Seq<char>)
    requires
        occurs_at(text, at, left + right),
    ensures
        occurs_at(text, at, left),
        occurs_at(text, at + left.len(), right),
{
    assert forall|i: int| 0 <= i < left.len() implies text[at + i] == #[trigger] left[i] by {
        assert((left + right)[i] == left[i]);
    }
    assert forall|i: int| 0 <= i < right.len() implies text[at + left.len() + i]
        == #[trigger] right[i] by {
        assert((left + right)[left.len() + i] == right[i]);
    }
}

/// A text stands in front of whatever is appended to it, and the appended
/// text stands behind it.
pub proof fn lemma_occurs_in_concat(left: Seq<char>, right: Seq<char>)
    ensures
        occurs_at(left + right, 0, left),
        occurs_at(left + right, left.len() as int, right),
{
}

/// A word that stands in the text behind a gap, and stops there for the
/// scanner, is the word that the scanner reads from the gap on.
pub proof fn lemma_reads_word(text: Seq<char>, from: int, gap: Seq<char>, word: Seq<char>)
    requires
        is_gap(gap),
        is_word(word),
        occurs_at(text, from, gap + word),
        word_stops_at(text, from + gap.len() + word.len()),
    ensures
        next_word(text, from) == (word, from + gap.len() + word.len()),
{
    lemma_occurs_split(text, from, gap, word);
    let start = from + gap.len();
    let end = start + word.len();
    assert forall|i: int| from <= i < start implies is_separator(#[trigger] text[i]) by {
        assert(text[from + (i - from)] == gap[i - from]);
    }
    assert forall|i: int| start <= i < end implies is_word_char(#[trigger] text[i]) by {
        assert(text[start + (i - start)] == word[i - start]);
    }
    assert(text[start + 0] == word[0]);
    lemma_word_start_is(text, from, start);
    lemma_word_end_is(text, start, end);
    assert(text.subrange(start, end) =~= word) by {
        assert forall|i: int| 0 <= i < word.len() implies text.subrange(start, end)[i]
            == word[i] by {
            assert(text[start + i] == word[i]);
        }
    }
}

/// The items of a written list are read back as they were written. The scan
/// stands inside the list, at the gap in front of the next item, and stops
/// on the closing parenthesis with all items gathered.
pub proof fn lemma_scan_items(
    text: Seq<char>,
    at: int,
    gap: Seq<char>,
    items: Seq<Seq<char>>,
    separator: Seq<char>,
    gathered: Seq<Seq<char>>,
)
    requires
        items.len() > 0,
        all_items(items),
        is_gap(gap),
        gap.len() > 0 || is_first_item(items[0]),
        is_gap(separator),
        separator.len() > 0,
        occurs_at(text, at, items_text(gap, items, separator)),
        word_stops_at(text, at + items_text(gap, items, separator).len()),
    ensures
        scan_list(text, at, ListState::InList, gathered) == (
            true,
            gathered + items,
            at + items_text(gap, items, separator).len() - 1,
        ),
    decreases items.len(),
{
    let item = items[0];
    assert(is_item(item));
    let whole = items_text(gap, items, separator);
    let first = text[at];
    // The scan stands on a separator or on the first character of the item.
    if gap.len() > 0 {
        assert(whole[0] == gap[0]);
        assert(text[at + 0] == whole[0]);
        assert(is_separator(first));
    } else {
        assert(whole[0] == item[0]);
        assert(text[at + 0] == whole[0]);
        assert(is_word_char(item[0]));
    }
    if items.len() == 1 {
        let closed = item + seq![LIST_CLOSE];
        assert(whole =~= gap + closed);
        assert(is_word(closed)) by {
            assert forall|i: int| 0 <= i < closed.len() implies is_word_char(
                #[trigger] closed[i],
            ) by {
                if i < item.len() {
                    assert(closed[i] == item[i]);
                }
            }
        }
        lemma_reads_word(text, at, gap, closed);
        let end = at + whole.len();
        assert(next_word(text, at) == (closed, end));
        assert(closed.last() == LIST_CLOSE);
        assert(closed.drop_last() =~= item);
        lemma_occurs_split(text, at, gap, closed);
        assert(text[at + gap.len() + item.len()] == closed[item.len() as int]);
        assert(text[end - 1] == LIST_CLOSE);
        lemma_closed_list_ends(text, end - 1, gathered.push(item));
        assert(scan_list(text, end - 1, ListState::Closed, gathered.push(item)) == (
            true,
            gathered.push(item),
            end - 1,
        ));
        assert(gathered + items =~= gathered.push(item));
    } else {
        let rest = items.drop_first();
        let tail = items_text(separator, rest, separator);
        assert(whole =~= (gap + item) + tail);
        lemma_occurs_split(text, at, gap + item, tail);
        let end = at + gap.len() + item.len();
        // Behind the item stands the separator.
        assert(tail[0] == separator[0]) by {
            if rest.len() <= 1 {
                assert(tail == separator + rest[0] + seq![LIST_CLOSE]);
            } else {
                assert(tail == separator + rest[0] + items_text(
                    separator,
                    rest.drop_first(),
                    separator,
                ));
            }
        }
        assert(tail.len() > 0);
        assert(text[end + 0] == tail[0]);
        assert(is_separator(text[end]));
        lemma_reads_word(text, at, gap, item);
        assert(next_word(text, at) == (item, end));
        assert(all_items(rest)) by {
            assert forall|i: int| 0 <= i < rest.len() implies is_item(#[trigger] rest[i]) by {
                assert(rest[i] == items[i + 1]);
            }
        }
        lemma_scan_items(text, end, separator, rest, separator, gathered.push(item));
        assert(gathered.push(item) + rest =~= gathered + items);
    }
}

/// A written list is read back as its items: the scan succeeds, yields the
/// items in order, and stops on the closing parenthesis. Blanks in front of
/// the list do not matter.
pub proof fn lemma_reads_list(
    text: Seq<char>,
    from: int,
    blanks: Seq<char>,
    items: Seq<Seq<char>>,
    separator: Seq<char>,
)
    requires
        forall|i: int| 0 <= i < blanks.len() ==> is_blank(#[trigger] blanks[i]),
        items.len() > 0,
        all_items(items),
        is_first_item(items[0]),
        is_gap(separator),
        separator.len() > 0,
        occurs_at(text, from, blanks + list_text(items, separator)),
        word_stops_at(text, from + blanks.len() + list_text(items, separator).len()),
    ensures
        next_list(text, from) == (
            true,
            items,
            from + blanks.len() + list_text(items, separator).len() - 1,
        ),
    decreases blanks.len(),
{
    let list = list_text(items, separator);
    let inner = items_text(Seq::empty(), items, separator);
    let none = Seq::<Seq<char>>::empty();
    if blanks.len() > 0 {
        assert((blanks + list)[0] == blanks[0]);
        assert(text[from + 0] == (blanks + list)[0]);
        let fewer = blanks.drop_first();
        assert forall|i: int| 0 <= i < fewer.len() implies is_blank(#[trigger] fewer[i]) by {
            assert(fewer[i] == blanks[i + 1]);
        }
        assert(blanks + list =~= seq![blanks[0]] + (fewer + list));
        lemma_occurs_split(text, from, seq![blanks[0]], fewer + list);
        lemma_reads_list(text, from + 1, fewer, items, separator);
    } else {
        assert(blanks + list =~= list);
        lemma_occurs_split(text, from, seq![LIST_OPEN], inner);
        assert(text[from + 0] == seq![LIST_OPEN][0]);
        assert(text[from] == LIST_OPEN);
        lemma_scan_items(text, from + 1, Seq::empty(), items, separator, none);
        assert(none + items =~= items);
    }
}

/// A pair of parentheses with nothing but blanks in front of it is not a
/// list: the scan stops on the closing parenthesis without success and
/// without an element.
pub proof fn lemma_reads_empty_list(text: Seq<char>, from: int, blanks: Seq<char>)
    requires
        forall|i: int| 0 <= i < blanks.len() ==> is_blank(#[trigger] blanks[i]),
        occurs_at(text, from, blanks + seq![LIST_OPEN, LIST_CLOSE]),
    ensures
        next_list(text, from) == (false, Seq::<Seq<char>>::empty(), from + blanks.len() + 1),
    decreases blanks.len(),
{
    let pair = seq![LIST_OPEN, LIST_CLOSE];
    if blanks.len() > 0 {
        assert((blanks + pair)[0] == blanks[0]);
        assert(text[from + 0] == (blanks + pair)[0]);
        let fewer = blanks.drop_first();
        assert forall|i: int| 0 <= i < fewer.len() implies is_blank(#[trigger] fewer[i]) by {
            assert(fewer[i] == blanks[i + 1]);
        }
        assert(blanks + pair =~= seq![blanks[0]] + (fewer + pair));
        lemma_occurs_split(text, from, seq![blanks[0]], fewer + pair);
        lemma_reads_empty_list(text, from + 1, fewer);
    } else {
        assert(blanks + pair =~= pair);
        assert(text[from + 0] == pair[0]);
        assert(text[from + 1] == pair[1]);
        lemma_closed_list_ends(text, from + 1, Seq::<Seq<char>>::empty());
        assert(scan_list(text, from + 1, ListState::InList, Seq::<Seq<char>>::empty()) == (
            false,
            Seq::<Seq<char>>::empty(),
            from + 1,
        ));
    }
}

} // verus!
