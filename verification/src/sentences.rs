//! Written forms of commands and statements, and what they compile to.
//!
//! Each form is a text put together from its parts: the keywords, in any
//! mixture of cases, a single space between the parts, the names and values
//! as given. For each form a theorem says what the compiler makes of it.

use vstd::prelude::*;
use crate::chars::{
    alphabetic, is_blank, is_blank_text, is_separator, is_word_char, lemma_fold_case_keeps_class,
    fold_case, LIST_CLOSE, LIST_OPEN, META_MARKER, TERMINATOR,
};
use crate::compiler::{
    compile_create_spec, compile_insert_spec, compile_meta_spec, compile_on_table_spec,
    compile_spec, is_insert_target,
};
use crate::forms::{
    all_items, is_first_item, is_gap, lemma_occurs_in_concat, lemma_reads_empty_list,
    lemma_reads_list, lemma_reads_word, list_text, occurs_at, word_stops_at,
};
use crate::keywords::{lemma_keywords_differ, Keyword};
use crate::lists::next_list;
use crate::statement::{StatementResult, StatementType, StatementView};
use crate::words::{is_word, lemma_word_start_is, next_word};

verus! {

/// A single space.
pub open spec fn space() -> Seq<char> {
    seq![' ']
}

/// A comma and a space: the usual separator between the items of a list.
pub open spec fn comma() -> Seq<char> {
    seq![',', ' ']
}

/// The keyword of a statement on a table alone: `drop` or `select`.
pub open spec fn table_keyword(kind: StatementType) -> Keyword {
    if kind == StatementType::Drop {
        Keyword::Drop
    } else {
        Keyword::Select
    }
}

/// `insert into T (v1, v2, ..., vn);`
pub open spec fn insert_text(
    insert: Seq<char>,
    into: Seq<char>,
    table: Seq<char>,
    values: Seq<Seq<char>>,
) -> Seq<char> {
    insert + space() + into + space() + table + space() + list_text(values, comma()) + seq![
        TERMINATOR,
    ]
}

/// `insert T (v1, v2, ..., vn);`: an insert without `into`.
pub open spec fn insert_text_without_into(
    insert: Seq<char>,
    table: Seq<char>,
    values: Seq<Seq<char>>,
) -> Seq<char> {
    insert + space() + table + space() + list_text(values, comma()) + seq![TERMINATOR]
}

/// `create T (c1, c2, ..., cn)`
pub open spec fn create_text(create: Seq<char>, table: Seq<char>, columns: Seq<Seq<char>>) -> Seq<
    char,
> {
    create + space() + table + space() + list_text(columns, comma())
}

/// `create T ()`
pub open spec fn create_text_without_columns(create: Seq<char>, table: Seq<char>) -> Seq<char> {
    create + space() + table + space() + seq![LIST_OPEN, LIST_CLOSE]
}

/// `drop T` and `select T`
pub open spec fn table_text(keyword: Seq<char>, table: Seq<char>) -> Seq<char> {
    keyword + space() + table
}

/// `.help ...` and the other meta-commands: the marker, the keyword, and the
/// rest of the line.
pub open spec fn meta_text(keyword: Seq<char>, rest: Seq<char>) -> Seq<char> {
    seq![META_MARKER] + keyword + rest
}

/// A word that matches a keyword is made of letters: it is a word for the
/// scanner, it is not an item that closes a list, and it does not begin with
/// the meta marker.
pub proof fn lemma_keyword_is_word(keyword: Keyword, word: Seq<char>)
    requires
        keyword.matches(word),
    ensures
        is_word(word),
        word.len() == keyword.spelling().len(),
        word[0] != META_MARKER,
        word.last() != LIST_CLOSE,
{
    let spelling = keyword.spelling();
    assert forall|i: int| 0 <= i < word.len() implies is_word_char(#[trigger] word[i]) && word[i]
        != META_MARKER && word[i] != LIST_CLOSE by {
        lemma_fold_case_keeps_class(word[i]);
        lemma_fold_case_keeps_class(spelling[i]);
        assert(fold_case(word[i]) == fold_case(spelling[i]));
        assert('a' <= spelling[i] <= 'z');
    }
    assert(word[0] != META_MARKER);
    assert(word[word.len() - 1] != LIST_CLOSE);
}

/// The scanner reads a word back from a text that is put together as a
/// prefix, a gap, the word, and a suffix that does not go on with the word.
pub proof fn lemma_reads_word_between(
    prefix: Seq<char>,
    gap: Seq<char>,
    word: Seq<char>,
    suffix: Seq<char>,
)
    requires
        is_gap(gap),
        is_word(word),
        suffix.len() == 0 || !is_word_char(suffix[0]),
    ensures
        next_word(prefix + gap + word + suffix, prefix.len() as int) == (
            word,
            (prefix.len() + gap.len() + word.len()) as int,
        ),
{
    let text = prefix + gap + word + suffix;
    let from = prefix.len() as int;
    assert(text =~= prefix + ((gap + word) + suffix));
    lemma_occurs_in_concat(prefix, (gap + word) + suffix);
    lemma_occurs_in_concat(gap + word, suffix);
    assert(occurs_at(text, from, gap + word)) by {
        assert forall|i: int| 0 <= i < (gap + word).len() implies text[from + i] == #[trigger] (gap
            + word)[i] by {
            assert(text[from + i] == ((gap + word) + suffix)[i]);
        }
    }
    let end = from + gap.len() + word.len();
    if suffix.len() > 0 {
        assert(text[end] == suffix[0]);
    }
    assert(word_stops_at(text, end));
    lemma_reads_word(text, from, gap, word);
}

/// The scanner finds no word in a text that, from the prefix on, holds only
/// a gap and then ends or goes on with the terminator.
pub proof fn lemma_reads_no_word(prefix: Seq<char>, gap: Seq<char>, suffix: Seq<char>)
    requires
        is_gap(gap),
        suffix.len() == 0 || suffix[0] == TERMINATOR,
    ensures
        next_word(prefix + gap + suffix, prefix.len() as int) == (
            Seq::<char>::empty(),
            (prefix.len() + gap.len()) as int,
        ),
{
    let text = prefix + gap + suffix;
    let from = prefix.len() as int;
    let start = from + gap.len();
    assert forall|i: int| from <= i < start implies is_separator(#[trigger] text[i]) by {
        assert(text[i] == gap[i - from]);
    }
    if suffix.len() > 0 {
        assert(text[start] == suffix[0]);
    }
    lemma_word_start_is(text, from, start);
}

/// The scanner reads a list back from a text that is put together as a
/// prefix, blanks, the written list, and a suffix that does not go on with
/// the last word.
pub proof fn lemma_reads_list_between(
    prefix: Seq<char>,
    blanks: Seq<char>,
    items: Seq<Seq<char>>,
    separator: Seq<char>,
    suffix: Seq<char>,
)
    requires
        forall|i: int| 0 <= i < blanks.len() ==> is_blank(#[trigger] blanks[i]),
        items.len() > 0,
        all_items(items),
        is_first_item(items[0]),
        is_gap(separator),
        separator.len() > 0,
        suffix.len() == 0 || !is_word_char(suffix[0]),
    ensures
        next_list(prefix + blanks + list_text(items, separator) + suffix, prefix.len() as int).0,
        next_list(prefix + blanks + list_text(items, separator) + suffix, prefix.len() as int).1
            == items,
{
    let list = list_text(items, separator);
    let text = prefix + blanks + list + suffix;
    let from = prefix.len() as int;
    assert(occurs_at(text, from, blanks + list)) by {
        assert forall|i: int| 0 <= i < (blanks + list).len() implies text[from + i]
            == #[trigger] (blanks + list)[i] by {
        }
    }
    let end = from + blanks.len() + list.len();
    if suffix.len() > 0 {
        assert(text[end] == suffix[0]);
    }
    lemma_reads_list(text, from, blanks, items, separator);
}

/// What a line compiles to when its first word is `insert`, its second
/// `into`, its third the name of a table, and a well-formed list follows.
proof fn lemma_insert_of_parts(
    line: Seq<char>,
    insert: Seq<char>,
    into: Seq<char>,
    table: Seq<char>,
    values: Seq<Seq<char>>,
    after_insert: int,
    after_into: int,
    after_table: int,
)
    requires
        line.len() > 0,
        line[0] != META_MARKER,
        Keyword::Insert.matches(insert),
        Keyword::Into.matches(into),
        next_word(line, 0) == (insert, after_insert),
        next_word(line, after_insert) == (into, after_into),
        next_word(line, after_into) == (table, after_table),
        next_list(line, after_table).0,
        next_list(line, after_table).1 == values,
    ensures
        compile_spec(line) == if is_insert_target(table) {
            StatementView::insert(table, values)
        } else {
            StatementView::rejected(StatementResult::ParseError)
        },
{
    if Keyword::Create.matches(insert) {
        lemma_keywords_differ(Keyword::Create, Keyword::Insert, insert);
    }
    if Keyword::Drop.matches(insert) {
        lemma_keywords_differ(Keyword::Drop, Keyword::Insert, insert);
    }
    assert(compile_spec(line) == compile_insert_spec(line, after_insert));
}

/// What a line compiles to when its first word is `create`, its second the
/// name of a table, and a list follows.
proof fn lemma_create_of_parts(
    line: Seq<char>,
    create: Seq<char>,
    table: Seq<char>,
    after_create: int,
    after_table: int,
)
    requires
        line.len() > 0,
        line[0] != META_MARKER,
        Keyword::Create.matches(create),
        next_word(line, 0) == (create, after_create),
        next_word(line, after_create) == (table, after_table),
    ensures
        compile_spec(line) == if next_list(line, after_table).0 {
            StatementView::create(table, next_list(line, after_table).1)
        } else {
            StatementView::rejected(StatementResult::ParseError)
        },
{
    assert(compile_spec(line) == compile_create_spec(line, after_create));
}

/// An insert with `into`, a table and at least one value compiles to the
/// insertion of exactly these values, in order, into that table, if the
/// table's name begins with an alphabetic character, and to a parse error if
/// it does not. The keywords may be written in any mixture of cases; the
/// table and the values are kept as written.
pub proof fn lemma_insert_compiles(
    insert: Seq<char>,
    into: Seq<char>,
    table: Seq<char>,
    values: Seq<Seq<char>>,
)
    requires
        Keyword::Insert.matches(insert),
        Keyword::Into.matches(into),
        is_word(table),
        values.len() >= 1,
        all_items(values),
        is_first_item(values[0]),
    ensures
        compile_spec(insert_text(insert, into, table, values)) == if alphabetic(table[0]) {
            StatementView::insert(table, values)
        } else {
            StatementView::rejected(StatementResult::ParseError)
        },
{
    let text = insert_text(insert, into, table, values);
    let list = list_text(values, comma());
    let end = seq![TERMINATOR];
    let none = Seq::<char>::empty();
    let after_insert = insert.len() as int;
    let after_into = after_insert + 1 + into.len();
    let after_table = after_into + 1 + table.len();
    lemma_keyword_is_word(Keyword::Insert, insert);
    lemma_keyword_is_word(Keyword::Into, into);
    assert(text.len() > 0 && text[0] == insert[0]);
    assert(next_word(text, 0) == (insert, after_insert)) by {
        let rest = space() + into + space() + table + space() + list + end;
        assert(text =~= none + none + insert + rest);
        assert(rest[0] == ' ');
        lemma_reads_word_between(none, none, insert, rest);
    }
    assert(next_word(text, after_insert) == (into, after_into)) by {
        let rest = space() + table + space() + list + end;
        assert(text =~= insert + space() + into + rest);
        assert(rest[0] == ' ');
        lemma_reads_word_between(insert, space(), into, rest);
    }
    assert(next_word(text, after_into) == (table, after_table)) by {
        let prefix = insert + space() + into;
        let rest = space() + list + end;
        assert(text =~= prefix + space() + table + rest);
        assert(rest[0] == ' ');
        lemma_reads_word_between(prefix, space(), table, rest);
    }
    assert(next_list(text, after_table).0 && next_list(text, after_table).1 == values) by {
        let prefix = insert + space() + into + space() + table;
        assert(text =~= prefix + space() + list + end);
        lemma_reads_list_between(prefix, space(), values, comma(), end);
    }
    lemma_insert_of_parts(
        text,
        insert,
        into,
        table,
        values,
        after_insert,
        after_into,
        after_table,
    );
}

/// An insert without `into` is a parse error, whatever the table and the
/// values.
pub proof fn lemma_insert_needs_into(insert: Seq<char>, table: Seq<char>, values: Seq<Seq<char>>)
    requires
        Keyword::Insert.matches(insert),
        is_word(table),
        !Keyword::Into.matches(table),
    ensures
        compile_spec(insert_text_without_into(insert, table, values))
            == StatementView::rejected(StatementResult::ParseError),
{
    let text = insert_text_without_into(insert, table, values);
    let list = list_text(values, comma());
    let end = seq![TERMINATOR];
    let none = Seq::<char>::empty();
    lemma_keyword_is_word(Keyword::Insert, insert);
    assert(text[0] == insert[0]);

    let after_insert = space() + table + space() + list + end;
    assert(text =~= none + none + insert + after_insert);
    assert(after_insert[0] == ' ');
    lemma_reads_word_between(none, none, insert, after_insert);

    let after_table = space() + list + end;
    assert(text =~= insert + space() + table + after_table);
    assert(after_table[0] == ' ');
    lemma_reads_word_between(insert, space(), table, after_table);

    if Keyword::Create.matches(insert) {
        lemma_keywords_differ(Keyword::Create, Keyword::Insert, insert);
    }
    if Keyword::Drop.matches(insert) {
        lemma_keywords_differ(Keyword::Drop, Keyword::Insert, insert);
    }
    assert(compile_spec(text) == compile_insert_spec(text, insert.len() as int));
}

/// Any line whose first word is `insert` and whose second word is not `into`
/// is a parse error.
pub proof fn lemma_insert_without_into(line: Seq<char>)
    requires
        line.len() > 0,
        line[0] != META_MARKER,
        Keyword::Insert.matches(next_word(line, 0).0),
        !Keyword::Into.matches(next_word(line, next_word(line, 0).1).0),
    ensures
        compile_spec(line) == StatementView::rejected(StatementResult::ParseError),
{
    let keyword = next_word(line, 0).0;
    if Keyword::Create.matches(keyword) {
        lemma_keywords_differ(Keyword::Create, Keyword::Insert, keyword);
    }
    if Keyword::Drop.matches(keyword) {
        lemma_keywords_differ(Keyword::Drop, Keyword::Insert, keyword);
    }
}

/// A create with a table and at least one column compiles to the creation of
/// that table with exactly these columns, in order. The keyword may be
/// written in any mixture of cases; the table and the columns are kept as
/// written.
pub proof fn lemma_create_compiles(create: Seq<char>, table: Seq<char>, columns: Seq<Seq<char>>)
    requires
        Keyword::Create.matches(create),
        is_word(table),
        columns.len() >= 1,
        all_items(columns),
        is_first_item(columns[0]),
    ensures
        compile_spec(create_text(create, table, columns)) == StatementView::create(table, columns),
{
    let text = create_text(create, table, columns);
    let list = list_text(columns, comma());
    let none = Seq::<char>::empty();
    let after_create = create.len() as int;
    let after_table = after_create + 1 + table.len();
    lemma_keyword_is_word(Keyword::Create, create);
    assert(text.len() > 0 && text[0] == create[0]);
    assert(next_word(text, 0) == (create, after_create)) by {
        let rest = space() + table + space() + list;
        assert(text =~= none + none + create + rest);
        assert(rest[0] == ' ');
        lemma_reads_word_between(none, none, create, rest);
    }
    assert(next_word(text, after_create) == (table, after_table)) by {
        let rest = space() + list;
        assert(text =~= create + space() + table + rest);
        assert(rest[0] == ' ');
        lemma_reads_word_between(create, space(), table, rest);
    }
    assert(next_list(text, after_table).0 && next_list(text, after_table).1 == columns) by {
        let prefix = create + space() + table;
        assert(text =~= prefix + space() + list + none);
        lemma_reads_list_between(prefix, space(), columns, comma(), none);
    }
    lemma_create_of_parts(text, create, table, after_create, after_table);
}

/// A create with an empty pair of parentheses is a parse error, whatever the
/// table.
pub proof fn lemma_create_needs_columns(create: Seq<char>, table: Seq<char>)
    requires
        Keyword::Create.matches(create),
        is_word(table),
    ensures
        compile_spec(create_text_without_columns(create, table)) == StatementView::rejected(
            StatementResult::ParseError,
        ),
{
    let text = create_text_without_columns(create, table);
    let pair = seq![LIST_OPEN, LIST_CLOSE];
    let none = Seq::<char>::empty();
    let after_create = create.len() as int;
    let after_table = after_create + 1 + table.len();
    lemma_keyword_is_word(Keyword::Create, create);
    assert(text.len() > 0 && text[0] == create[0]);
    assert(next_word(text, 0) == (create, after_create)) by {
        let rest = space() + table + space() + pair;
        assert(text =~= none + none + create + rest);
        assert(rest[0] == ' ');
        lemma_reads_word_between(none, none, create, rest);
    }
    assert(next_word(text, after_create) == (table, after_table)) by {
        let rest = space() + pair;
        assert(text =~= create + space() + table + rest);
        assert(rest[0] == ' ');
        lemma_reads_word_between(create, space(), table, rest);
    }
    assert(!next_list(text, after_table).0) by {
        assert(occurs_at(text, after_table, space() + pair)) by {
            assert forall|i: int| 0 <= i < (space() + pair).len() implies text[after_table + i]
                == #[trigger] (space() + pair)[i] by {
            }
        }
        lemma_reads_empty_list(text, after_table, space());
    }
    lemma_create_of_parts(text, create, table, after_create, after_table);
}

/// A drop or a select with a table compiles to that statement on that table,
/// unless the name is nothing but whitespace: then it is a parse error. The
/// keyword may be written in any mixture of cases; the table is kept as
/// written.
pub proof fn lemma_on_table_compiles(kind: StatementType, keyword: Seq<char>, table: Seq<char>)
    requires
        kind == StatementType::Drop || kind == StatementType::Select,
        table_keyword(kind).matches(keyword),
        is_word(table),
    ensures
        compile_spec(table_text(keyword, table)) == if is_blank_text(table) {
            StatementView::rejected(StatementResult::ParseError)
        } else {
            StatementView::on_table(kind, table)
        },
{
    let text = table_text(keyword, table);
    let none = Seq::<char>::empty();
    lemma_keyword_is_word(table_keyword(kind), keyword);
    assert(text[0] == keyword[0]);

    let after_keyword = space() + table;
    assert(text =~= none + none + keyword + after_keyword);
    assert(after_keyword[0] == ' ');
    lemma_reads_word_between(none, none, keyword, after_keyword);

    assert(text =~= keyword + space() + table + none);
    lemma_reads_word_between(keyword, space(), table, none);
    lemma_dispatch(kind, text);
}

/// A drop or a select without a table is a parse error: the keyword alone,
/// or with nothing but separators behind it, up to the end of the line or
/// the terminator.
pub proof fn lemma_on_table_needs_name(
    kind: StatementType,
    keyword: Seq<char>,
    gap: Seq<char>,
    rest: Seq<char>,
)
    requires
        kind == StatementType::Drop || kind == StatementType::Select,
        table_keyword(kind).matches(keyword),
        is_gap(gap),
        rest.len() == 0 || rest[0] == TERMINATOR,
    ensures
        compile_spec(keyword + gap + rest) == StatementView::rejected(StatementResult::ParseError),
{
    let text = keyword + gap + rest;
    let none = Seq::<char>::empty();
    lemma_keyword_is_word(table_keyword(kind), keyword);
    assert(text[0] == keyword[0]);

    let after_keyword = gap + rest;
    assert(text =~= none + none + keyword + after_keyword);
    if after_keyword.len() > 0 {
        if gap.len() > 0 {
            assert(after_keyword[0] == gap[0]);
        } else {
            assert(after_keyword[0] == rest[0]);
        }
    }
    lemma_reads_word_between(none, none, keyword, after_keyword);
    lemma_reads_no_word(keyword, gap, rest);
    assert(is_blank_text(Seq::<char>::empty()));
    lemma_dispatch(kind, text);
}

/// A line whose first word is `drop` or `select` compiles as that statement.
proof fn lemma_dispatch(kind: StatementType, line: Seq<char>)
    requires
        kind == StatementType::Drop || kind == StatementType::Select,
        line.len() > 0,
        line[0] != META_MARKER,
        table_keyword(kind).matches(next_word(line, 0).0),
    ensures
        compile_spec(line) == compile_on_table_spec(kind, line, next_word(line, 0).1),
{
    let keyword = next_word(line, 0).0;
    if Keyword::Create.matches(keyword) {
        lemma_keywords_differ(Keyword::Create, table_keyword(kind), keyword);
    }
    if Keyword::Drop.matches(keyword) {
        lemma_keywords_differ(Keyword::Drop, table_keyword(kind), keyword);
    }
    if Keyword::Insert.matches(keyword) {
        lemma_keywords_differ(Keyword::Insert, table_keyword(kind), keyword);
    }
}

/// A meta-command compiles to its kind with the rest of the line, exactly as
/// written, as its argument: `help` and `print` to themselves, `exit` to the
/// verdict `Terminate`. The keyword may be written in any mixture of cases.
pub proof fn lemma_meta_compiles(keyword: Seq<char>, rest: Seq<char>)
    requires
        rest.len() == 0 || !is_word_char(rest[0]),
    ensures
        Keyword::Exit.matches(keyword) ==> compile_spec(meta_text(keyword, rest))
            == StatementView::rejected(StatementResult::Terminate),
        Keyword::Help.matches(keyword) ==> compile_spec(meta_text(keyword, rest))
            == StatementView::meta(StatementType::MetaHelp, rest),
        Keyword::Print.matches(keyword) ==> compile_spec(meta_text(keyword, rest))
            == StatementView::meta(StatementType::MetaPrint, rest),
{
    let text = meta_text(keyword, rest);
    let marker = seq![META_MARKER];
    let none = Seq::<char>::empty();
    assert(text[0] == META_MARKER);
    if Keyword::Exit.matches(keyword) || Keyword::Help.matches(keyword) || Keyword::Print.matches(
        keyword,
    ) {
        if Keyword::Exit.matches(keyword) {
            lemma_keyword_is_word(Keyword::Exit, keyword);
            if Keyword::Help.matches(keyword) {
                lemma_keywords_differ(Keyword::Exit, Keyword::Help, keyword);
            }
        } else if Keyword::Help.matches(keyword) {
            lemma_keyword_is_word(Keyword::Help, keyword);
        } else {
            lemma_keyword_is_word(Keyword::Print, keyword);
        }
        assert(text =~= marker + none + keyword + rest);
        lemma_reads_word_between(marker, none, keyword, rest);
        let end = 1 + keyword.len();
        assert(next_word(text, 1) == (keyword, end as int));
        assert(text.subrange(end as int, text.len() as int) =~= rest);
        assert(compile_spec(text) == compile_meta_spec(text));
    }
}

/// A line that begins with the meta marker and goes on with a word that is
/// none of the meta keywords is not recognised, and carries no payload.
pub proof fn lemma_unknown_meta_command(line: Seq<char>)
    requires
        line.len() > 0,
        line[0] == META_MARKER,
        !Keyword::Exit.matches(next_word(line, 1).0),
        !Keyword::Help.matches(next_word(line, 1).0),
        !Keyword::Print.matches(next_word(line, 1).0),
    ensures
        compile_spec(line) == StatementView::rejected(StatementResult::Unrecognized),
        compile_spec(line).statement_type == StatementType::Undefined,
        compile_spec(line).meta_args is None,
        compile_spec(line).table_name is None,
        compile_spec(line).columns_to_create is None,
        compile_spec(line).row_to_insert is None,
{
}

/// A line that does not begin with the meta marker and whose first word is
/// none of the statement keywords is not recognised, and carries no payload.
pub proof fn lemma_unknown_statement(line: Seq<char>)
    requires
        line.len() > 0,
        line[0] != META_MARKER,
        !Keyword::Create.matches(next_word(line, 0).0),
        !Keyword::Drop.matches(next_word(line, 0).0),
        !Keyword::Insert.matches(next_word(line, 0).0),
        !Keyword::Select.matches(next_word(line, 0).0),
    ensures
        compile_spec(line) == StatementView::rejected(StatementResult::Unrecognized),
{
}

/// Compiling is a function of the line alone: whatever two statements the
/// compiler returns for one line, they are equal field by field.
pub proof fn lemma_compile_is_repeatable(
    line: Seq<char>,
    first: StatementView,
    second: StatementView,
)
    requires
        first == compile_spec(line),
        second == compile_spec(line),
    ensures
        first == second,
{
}

} // verus!
