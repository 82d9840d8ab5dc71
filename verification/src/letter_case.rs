//! Keywords are matched without regard to case: a line compiles to the same
//! statement however its keywords are capitalised.

use vstd::prelude::*;
use crate::chars::{
    fold_case, is_blank, is_separator, is_word_char, lemma_fold_case_keeps_class, LIST_CLOSE,
    LIST_OPEN, META_MARKER, TERMINATOR,
};
use crate::compiler::{
    compile_create_spec, compile_insert_spec, compile_meta_spec, compile_on_table_spec,
    compile_spec, compile_statement_spec,
};
use crate::keywords::{
    lemma_keyword_ignores_case, lemma_keywords_differ, same_ignoring_case, Keyword,
};
use crate::lists::{lemma_word_step, scan_list, ListState};
use crate::statement::StatementType;
use crate::words::{
    lemma_next_word, lemma_word_end, lemma_word_start, next_word, word_end, word_start,
};

verus! {

/// Whether position `at` of `line` lies in a keyword: in the first word of
/// the line, or of what follows the meta marker, or, in an insert, in the
/// word behind `insert`.
pub open spec fn in_keyword(line: Seq<char>, at: int) -> bool {
    let from: int = if line.len() > 0 && line[0] == META_MARKER {
        1
    } else {
        0
    };
    let start = word_start(line, from);
    let end = word_end(line, start);
    let second = word_start(line, end);
    ||| start <= at < end
    ||| (from == 0 && Keyword::Insert.matches(next_word(line, 0).0) && second <= at < word_end(
        line,
        second,
    ))
}

/// Whether `other` is `line` with, at most, the letters of its keywords
/// written in another case.
pub open spec fn differs_in_keyword_case(line: Seq<char>, other: Seq<char>) -> bool {
    &&& line.len() == other.len()
    &&& forall|i: int|
        0 <= i < line.len() ==> #[trigger] line[i] == other[i] || (in_keyword(line, i)
            && fold_case(line[i]) == fold_case(other[i]))
}

/// Whether two lines of one length hold characters of the same classes from
/// `from` on.
pub open spec fn same_classes_from(a: Seq<char>, b: Seq<char>, from: int) -> bool {
    &&& a.len() == b.len()
    &&& forall|i: int|
        from <= i < a.len() ==> is_separator(#[trigger] a[i]) == is_separator(b[i])
            && is_word_char(a[i]) == is_word_char(b[i])
}

/// Whether two lines of one length are the same from `from` on.
pub open spec fn same_from(a: Seq<char>, b: Seq<char>, from: int) -> bool {
    &&& a.len() == b.len()
    &&& forall|i: int| from <= i < a.len() ==> #[trigger] a[i] == b[i]
}

/// Where a word begins depends on the classes of the characters alone.
pub proof fn lemma_word_start_by_class(a: Seq<char>, b: Seq<char>, from: int)
    requires
        0 <= from,
        same_classes_from(a, b, from),
    ensures
        word_start(a, from) == word_start(b, from),
    decreases a.len() - from,
{
    if from < a.len() && is_separator(a[from]) {
        lemma_word_start_by_class(a, b, from + 1);
    }
}

/// Where a word ends depends on the classes of the characters alone.
pub proof fn lemma_word_end_by_class(a: Seq<char>, b: Seq<char>, from: int)
    requires
        0 <= from,
        same_classes_from(a, b, from),
    ensures
        word_end(a, from) == word_end(b, from),
    decreases a.len() - from,
{
    if from < a.len() && is_word_char(a[from]) {
        lemma_word_end_by_class(a, b, from + 1);
    }
}

/// The next word depends on the line from the start of the scan on alone.
pub proof fn lemma_next_word_by_rest(a: Seq<char>, b: Seq<char>, from: int)
    requires
        0 <= from <= a.len(),
        same_from(a, b, from),
    ensures
        next_word(a, from) == next_word(b, from),
{
    assert(same_classes_from(a, b, from));
    lemma_word_start_by_class(a, b, from);
    lemma_word_start(a, from);
    let start = word_start(a, from);
    assert(same_classes_from(a, b, start));
    lemma_word_end_by_class(a, b, start);
    lemma_word_end(a, start);
    let end = word_end(a, start);
    if start < end {
        assert(a.subrange(start, end) =~= b.subrange(start, end));
    }
}

/// The scan of a list depends on the line from the start of the scan on
/// alone.
pub proof fn lemma_scan_list_by_rest(
    a: Seq<char>,
    b: Seq<char>,
    at: int,
    state: ListState,
    elements: Seq<Seq<char>>,
)
    requires
        0 <= at <= a.len(),
        same_from(a, b, at),
    ensures
        scan_list(a, at, state, elements) == scan_list(b, at, state, elements),
    decreases a.len() - at,
{
    if !(0 <= at < a.len()) {
    } else if a[at] == TERMINATOR {
    } else if state != ListState::InList && is_blank(a[at]) {
        lemma_scan_list_by_rest(a, b, at + 1, state, elements);
    } else if a[at] == LIST_OPEN {
        if state == ListState::BeforeList {
            lemma_scan_list_by_rest(a, b, at + 1, ListState::InList, elements);
        }
    } else if a[at] == LIST_CLOSE {
    } else if state == ListState::Closed {
    } else {
        lemma_next_word_by_rest(a, b, at);
        lemma_word_step(a, at);
        let (word, end) = next_word(a, at);
        if word.len() > 0 && word.last() == LIST_CLOSE {
            let element = word.drop_last();
            let gathered = if element.len() > 0 {
                elements.push(element)
            } else {
                elements
            };
            lemma_scan_list_by_rest(a, b, end - 1, ListState::Closed, gathered);
        } else {
            lemma_scan_list_by_rest(a, b, end, state, elements.push(word));
        }
    }
}

/// The word read from `from` on is the same in both lines but for the case
/// of its letters, and ends at the same position, when the lines hold the
/// same characters but for the case of letters.
pub proof fn lemma_next_word_by_fold(a: Seq<char>, b: Seq<char>, from: int)
    requires
        0 <= from <= a.len(),
        same_ignoring_case(a, b),
    ensures
        next_word(a, from).1 == next_word(b, from).1,
        word_start(a, from) == word_start(b, from),
        same_ignoring_case(next_word(a, from).0, next_word(b, from).0),
{
    assert(same_classes_from(a, b, 0)) by {
        assert forall|i: int| 0 <= i < a.len() implies is_separator(#[trigger] a[i])
            == is_separator(b[i]) && is_word_char(a[i]) == is_word_char(b[i]) by {
            lemma_fold_case_keeps_class(a[i]);
            lemma_fold_case_keeps_class(b[i]);
            assert(fold_case(a[i]) == fold_case(b[i]));
        }
    }
    assert(same_classes_from(a, b, from));
    lemma_word_start_by_class(a, b, from);
    lemma_word_start(a, from);
    let start = word_start(a, from);
    assert(same_classes_from(a, b, start));
    lemma_word_end_by_class(a, b, start);
    lemma_word_end(a, start);
    let end = word_end(a, start);
    let x = next_word(a, from).0;
    let y = next_word(b, from).0;
    if start < end {
        assert forall|i: int| 0 <= i < x.len() implies fold_case(#[trigger] x[i]) == fold_case(
            y[i],
        ) by {
            assert(x[i] == a[start + i]);
            assert(y[i] == b[start + i]);
            assert(fold_case(a[start + i]) == fold_case(b[start + i]));
        }
    }
}

/// A line compiles to the same statement however the letters of its keywords
/// are capitalised. Everything else, the names and the values, is kept as
/// written.
pub proof fn lemma_keyword_case_is_ignored(line: Seq<char>, other: Seq<char>)
    requires
        differs_in_keyword_case(line, other),
    ensures
        compile_spec(line) == compile_spec(other),
{
    if line.len() > 0 {
        assert(same_ignoring_case(line, other)) by {
            assert forall|i: int| 0 <= i < line.len() implies fold_case(#[trigger] line[i])
                == fold_case(other[i]) by {
                assert(line[i] == other[i] || fold_case(line[i]) == fold_case(other[i]));
            }
        }
        lemma_fold_case_keeps_class(line[0]);
        lemma_fold_case_keeps_class(other[0]);
        assert(fold_case(line[0]) == fold_case(other[0]));
        assert((line[0] == META_MARKER) == (other[0] == META_MARKER));
        if line[0] == META_MARKER {
            lemma_meta_case(line, other);
        } else {
            lemma_statement_case(line, other);
        }
    }
}

proof fn lemma_meta_case(line: Seq<char>, other: Seq<char>)
    requires
        line.len() > 0,
        differs_in_keyword_case(line, other),
        line[0] == META_MARKER,
        other[0] == META_MARKER,
        same_ignoring_case(line, other),
    ensures
        compile_meta_spec(line) == compile_meta_spec(other),
{
    lemma_next_word_by_fold(line, other, 1);
    lemma_next_word(line, 1);
    let (keyword, end) = next_word(line, 1);
    let (keyword2, end2) = next_word(other, 1);
    lemma_keyword_ignores_case(Keyword::Exit, keyword, keyword2);
    lemma_keyword_ignores_case(Keyword::Help, keyword, keyword2);
    lemma_keyword_ignores_case(Keyword::Print, keyword, keyword2);
    assert(same_from(line, other, end)) by {
        assert forall|i: int| end <= i < line.len() implies #[trigger] line[i] == other[i] by {
            assert(!in_keyword(line, i));
        }
    }
    assert(line.subrange(end, line.len() as int) =~= other.subrange(end, other.len() as int));
}

proof fn lemma_statement_case(line: Seq<char>, other: Seq<char>)
    requires
        line.len() > 0,
        differs_in_keyword_case(line, other),
        line[0] != META_MARKER,
        other[0] != META_MARKER,
        same_ignoring_case(line, other),
    ensures
        compile_statement_spec(line) == compile_statement_spec(other),
{
    lemma_next_word_by_fold(line, other, 0);
    lemma_next_word(line, 0);
    let (keyword, end) = next_word(line, 0);
    let (keyword2, end2) = next_word(other, 0);
    lemma_keyword_ignores_case(Keyword::Create, keyword, keyword2);
    lemma_keyword_ignores_case(Keyword::Drop, keyword, keyword2);
    lemma_keyword_ignores_case(Keyword::Insert, keyword, keyword2);
    lemma_keyword_ignores_case(Keyword::Select, keyword, keyword2);
    if Keyword::Insert.matches(keyword) {
        if Keyword::Create.matches(keyword) {
            lemma_keywords_differ(Keyword::Create, Keyword::Insert, keyword);
        }
        if Keyword::Drop.matches(keyword) {
            lemma_keywords_differ(Keyword::Drop, Keyword::Insert, keyword);
        }
        lemma_next_word_by_fold(line, other, end);
        lemma_next_word(line, end);
        let (into, after_into) = next_word(line, end);
        let (into2, _) = next_word(other, end);
        lemma_keyword_ignores_case(Keyword::Into, into, into2);
        assert(same_from(line, other, after_into)) by {
            assert forall|i: int| after_into <= i < line.len() implies #[trigger] line[i]
                == other[i] by {
                assert(!in_keyword(line, i));
            }
        }
        lemma_next_word_by_rest(line, other, after_into);
        lemma_next_word(line, after_into);
        let after_table = next_word(line, after_into).1;
        assert(same_from(line, other, after_table));
        lemma_scan_list_by_rest(line, other, after_table, ListState::BeforeList, Seq::empty());
        assert(compile_insert_spec(line, end) == compile_insert_spec(other, end));
    } else {
        assert(same_from(line, other, end)) by {
            assert forall|i: int| end <= i < line.len() implies #[trigger] line[i] == other[i] by {
                assert(!in_keyword(line, i));
            }
        }
        lemma_next_word_by_rest(line, other, end);
        lemma_next_word(line, end);
        let after_table = next_word(line, end).1;
        assert(same_from(line, other, after_table));
        lemma_scan_list_by_rest(line, other, after_table, ListState::BeforeList, Seq::empty());
        assert(compile_create_spec(line, end) == compile_create_spec(other, end));
        assert(compile_on_table_spec(StatementType::Drop, line, end) == compile_on_table_spec(
            StatementType::Drop,
            other,
            end,
        ));
        assert(compile_on_table_spec(StatementType::Select, line, end) == compile_on_table_spec(
            StatementType::Select,
            other,
            end,
        ));
    }
}

} // verus!
