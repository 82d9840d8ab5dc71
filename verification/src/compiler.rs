//! The statement compiler: from one line of input to a `Statement`.
//!
//! A line that begins with the meta marker is a meta-command: its keyword is
//! the first word behind the marker, and the rest of the line, from the end
//! of that word on, is its argument. Any other line is a data statement: its
//! keyword is its first word, and what has to follow depends on the keyword.
//! Keywords are matched without regard to case; everything else is kept as
//! written.

use vstd::prelude::*;
use crate::chars::{alphabetic, is_blank_text, whitespace, META_MARKER};
use crate::keywords::Keyword;
use crate::line::Line;
use crate::lists::{next_list, next_list_in, texts};
use crate::statement::{Statement, StatementResult, StatementType, StatementView};
use crate::words::{lemma_next_word, next_word, next_word_in};

verus! {

/// What a meta-command line compiles to.
pub open spec fn compile_meta_spec(line: Seq<char>) -> StatementView {
    let (keyword, end) = next_word(line, 1);
    let args = line.subrange(end, line.len() as int);
    if Keyword::Exit.matches(keyword) {
        StatementView::rejected(StatementResult::Terminate)
    } else if Keyword::Help.matches(keyword) {
        StatementView::meta(StatementType::MetaHelp, args)
    } else if Keyword::Print.matches(keyword) {
        StatementView::meta(StatementType::MetaPrint, args)
    } else {
        StatementView::rejected(StatementResult::Unrecognized)
    }
}

/// What `create` compiles to when the keyword ends at `after`: the next word
/// names the table and a well-formed list of columns has to follow.
pub open spec fn compile_create_spec(line: Seq<char>, after: int) -> StatementView {
    let (table, end) = next_word(line, after);
    let (well_formed, columns, _) = next_list(line, end);
    if well_formed {
        StatementView::create(table, columns)
    } else {
        StatementView::rejected(StatementResult::ParseError)
    }
}

/// What `drop` and `select` compile to when the keyword ends at `after`: the
/// next word names the table and must not be blank.
pub open spec fn compile_on_table_spec(
    kind: StatementType,
    line: Seq<char>,
    after: int,
) -> StatementView {
    on_table_spec(kind, next_word(line, after).0)
}

/// The statement of kind `kind` on the table named `table`, or a parse error
/// when the name is blank.
pub open spec fn on_table_spec(kind: StatementType, table: Seq<char>) -> StatementView {
    if is_blank_text(table) {
        StatementView::rejected(StatementResult::ParseError)
    } else {
        StatementView::on_table(kind, table)
    }
}

/// Whether `table` may name the table of an `insert`: it is not empty and
/// begins with an alphabetic character.
pub open spec fn is_insert_target(table: Seq<char>) -> bool {
    table.len() > 0 && alphabetic(table[0])
}

/// What `insert` compiles to when the keyword ends at `after`: the word
/// `into` has to follow, then the name of the table, which begins with an
/// alphabetic character, then a well-formed list of values.
pub open spec fn compile_insert_spec(line: Seq<char>, after: int) -> StatementView {
    let (into, after_into) = next_word(line, after);
    let (table, end) = next_word(line, after_into);
    let (well_formed, row, _) = next_list(line, end);
    if Keyword::Into.matches(into) && is_insert_target(table) && well_formed {
        StatementView::insert(table, row)
    } else {
        StatementView::rejected(StatementResult::ParseError)
    }
}

/// What a data statement line compiles to.
pub open spec fn compile_statement_spec(line: Seq<char>) -> StatementView {
    let (keyword, end) = next_word(line, 0);
    if Keyword::Create.matches(keyword) {
        compile_create_spec(line, end)
    } else if Keyword::Drop.matches(keyword) {
        compile_on_table_spec(StatementType::Drop, line, end)
    } else if Keyword::Insert.matches(keyword) {
        compile_insert_spec(line, end)
    } else if Keyword::Select.matches(keyword) {
        compile_on_table_spec(StatementType::Select, line, end)
    } else {
        StatementView::rejected(StatementResult::Unrecognized)
    }
}

/// What a line compiles to.
pub open spec fn compile_spec(line: Seq<char>) -> StatementView {
    if line.len() == 0 {
        StatementView::rejected(StatementResult::Unrecognized)
    } else if line[0] == META_MARKER {
        compile_meta_spec(line)
    } else {
        compile_statement_spec(line)
    }
}

/// The statement for a line whose keyword is not known.
pub fn unrecognized_command() -> (statement: Statement)
    ensures
        statement@ == StatementView::rejected(StatementResult::Unrecognized),
{
    Statement::new(StatementResult::Unrecognized, StatementType::Undefined, None, None, None, None)
}

/// The statement for a line whose keyword is known and whose rest is not
/// well formed.
pub fn parse_error() -> (statement: Statement)
    ensures
        statement@ == StatementView::rejected(StatementResult::ParseError),
{
    Statement::new(StatementResult::ParseError, StatementType::Undefined, None, None, None, None)
}

/// The statement for a line that asks to end the session.
pub fn terminate() -> (statement: Statement)
    ensures
        statement@ == StatementView::rejected(StatementResult::Terminate),
{
    Statement::new(StatementResult::Terminate, StatementType::Undefined, None, None, None, None)
}

/// Whether every character of `text` is whitespace.
pub fn is_blank_name(text: &String) -> (blank: bool)
    ensures
        blank == is_blank_text(text@),
{
    let line = Line::new(text.as_str());
    let len = line.len();
    let mut at: usize = 0;
    while at < len
        invariant
            len == line@.len(),
            line@ == text@,
            at <= len,
            forall|i: int| 0 <= i < at ==> whitespace(#[trigger] text@[i]),
        decreases len - at,
    {
        match line.peek(at) {
            Some(c) => {
                if !c.is_whitespace() {
                    return false;
                }
            },
            None => {
                return false;
            },
        }
        at += 1;
    }
    true
}

/// Whether `text` begins with an alphabetic character.
pub fn begins_alphabetic(text: &String) -> (found: bool)
    ensures
        found == is_insert_target(text@),
{
    let line = Line::new(text.as_str());
    match line.peek(0) {
        Some(c) => c.is_alphabetic(),
        None => false,
    }
}

/// The statement of kind `Drop` or `Select` on `table`, given whether the
/// name is blank.
pub fn statement_on_table(kind: StatementType, table: String, blank: bool) -> (statement:
    Statement)
    requires
        kind == StatementType::Drop || kind == StatementType::Select,
    ensures
        statement@ == if blank {
            StatementView::rejected(StatementResult::ParseError)
        } else {
            StatementView::on_table(kind, table@)
        },
{
    if blank {
        parse_error()
    } else {
        Statement::new(StatementResult::Success, kind, None, Some(table), None, None)
    }
}

/// The statement that inserts `row` into `table`, given whether the word in
/// front of the name was `into`, whether the name may stand for a table, and
/// whether the list of values was well formed.
pub fn statement_insert(
    has_into: bool,
    table: String,
    valid_target: bool,
    well_formed: bool,
    row: Vec<String>,
) -> (statement: Statement)
    ensures
        statement@ == if has_into && valid_target && well_formed {
            StatementView::insert(table@, texts(row@))
        } else {
            StatementView::rejected(StatementResult::ParseError)
        },
{
    if has_into && valid_target && well_formed {
        Statement::new(
            StatementResult::Success,
            StatementType::Insert,
            None,
            Some(table),
            None,
            Some(row),
        )
    } else {
        parse_error()
    }
}

/// The statement that creates `table` with `columns`, given whether the list
/// of columns was well formed.
pub fn statement_create(table: String, well_formed: bool, columns: Vec<String>) -> (statement:
    Statement)
    ensures
        statement@ == if well_formed {
            StatementView::create(table@, texts(columns@))
        } else {
            StatementView::rejected(StatementResult::ParseError)
        },
{
    if well_formed {
        Statement::new(
            StatementResult::Success,
            StatementType::Create,
            None,
            Some(table),
            Some(columns),
            None,
        )
    } else {
        parse_error()
    }
}

/// Compiles a line that begins with the meta marker.
pub fn compile_meta(line: &Line) -> (statement: Statement)
    requires
        line@.len() > 0,
    ensures
        statement@ == compile_meta_spec(line@),
{
    proof {
        lemma_next_word(line@, 1);
    }
    let (keyword, end) = next_word_in(line, 1);
    if Keyword::Exit.is_spelled(&keyword) {
        terminate()
    } else if Keyword::Help.is_spelled(&keyword) {
        let args = line.slice(end, line.len());
        Statement::new(
            StatementResult::Success,
            StatementType::MetaHelp,
            Some(args),
            None,
            None,
            None,
        )
    } else if Keyword::Print.is_spelled(&keyword) {
        let args = line.slice(end, line.len());
        Statement::new(
            StatementResult::Success,
            StatementType::MetaPrint,
            Some(args),
            None,
            None,
            None,
        )
    } else {
        unrecognized_command()
    }
}

/// Compiles a line that does not begin with the meta marker.
pub fn compile_statement(line: &Line) -> (statement: Statement)
    ensures
        statement@ == compile_statement_spec(line@),
{
    let (keyword, end) = next_word_in(line, 0);
    if Keyword::Create.is_spelled(&keyword) {
        let (table, end) = next_word_in(line, end);
        let (well_formed, columns, _) = next_list_in(line, end);
        statement_create(table, well_formed, columns)
    } else if Keyword::Drop.is_spelled(&keyword) {
        let (table, _) = next_word_in(line, end);
        let blank = is_blank_name(&table);
        statement_on_table(StatementType::Drop, table, blank)
    } else if Keyword::Insert.is_spelled(&keyword) {
        let (into, end) = next_word_in(line, end);
        if !Keyword::Into.is_spelled(&into) {
            return parse_error();
        }
        let (table, end) = next_word_in(line, end);
        if !begins_alphabetic(&table) {
            return parse_error();
        }
        let (well_formed, row, _) = next_list_in(line, end);
        statement_insert(true, table, true, well_formed, row)
    } else if Keyword::Select.is_spelled(&keyword) {
        let (table, _) = next_word_in(line, end);
        let blank = is_blank_name(&table);
        statement_on_table(StatementType::Select, table, blank)
    } else {
        unrecognized_command()
    }
}

/// Compiles one line of input: a meta-command if it begins with the meta
/// marker, a data statement otherwise. The empty line is not recognised. A
/// line that asks to end the session compiles to the verdict `Terminate`;
/// ending the session is left to the caller.
pub fn compile(input: &String) -> (statement: Statement)
    ensures
        statement@ == compile_spec(input@),
        statement@.well_formed(),
{
    let line = Line::new(input.as_str());
    let statement = match line.peek(0) {
        Some(first) => {
            if first == META_MARKER {
                compile_meta(&line)
            } else {
                compile_statement(&line)
            }
        },
        None => unrecognized_command(),
    };
    proof {
        lemma_compile_well_formed(input@);
    }
    statement
}

/// Whatever the line, its compiled form is well formed: the payload is that
/// of the kind, and a line that was turned down has none.
pub proof fn lemma_compile_well_formed(line: Seq<char>)
    ensures
        compile_spec(line).well_formed(),
{
}

} // verus!
