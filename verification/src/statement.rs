//! The compiled form of one input line.

use vstd::prelude::*;
use crate::lists::texts;

verus! {

/// The compiler's verdict on a line.
#[derive(Clone, Copy, Debug, PartialEq, Eq, Structural)]
pub enum StatementResult {
    /// The line is a command or statement, ready to be carried out.
    Success,
    /// The leading keyword names no known command or statement.
    Unrecognized,
    /// The keyword is known, but what follows it is not well formed.
    ParseError,
    /// The line asks to end the session; the caller is to shut down.
    Terminate,
}

/// What a compiled line asks for.
#[derive(Clone, Copy, Debug, PartialEq, Eq, Structural)]
pub enum StatementType {
    Create,
    Drop,
    Insert,
    /// The kind of every line that did not compile to something to carry out.
    Undefined,
    MetaHelp,
    MetaPrint,
    Select,
}

/// A statement as a mathematical value: verdict, kind and payload.
pub struct StatementView {
    pub statement_result: StatementResult,
    pub statement_type: StatementType,
    /// The rest of the line behind a meta keyword.
    pub meta_args: Option<Seq<char>>,
    /// The table that a data statement names.
    pub table_name: Option<Seq<char>>,
    /// The columns of the table to create, in order.
    pub columns_to_create: Option<Seq<Seq<char>>>,
    /// The values of the row to insert, in order.
    pub row_to_insert: Option<Seq<Seq<char>>>,
}

impl StatementView {
    /// A line that was turned down: no kind and no payload.
    pub open spec fn rejected(verdict: StatementResult) -> StatementView {
        StatementView {
            statement_result: verdict,
            statement_type: StatementType::Undefined,
            meta_args: None,
            table_name: None,
            columns_to_create: None,
            row_to_insert: None,
        }
    }

    /// A meta-command of kind `kind` with the rest of its line.
    pub open spec fn meta(kind: StatementType, args: Seq<char>) -> StatementView {
        StatementView {
            statement_result: StatementResult::Success,
            statement_type: kind,
            meta_args: Some(args),
            table_name: None,
            columns_to_create: None,
            row_to_insert: None,
        }
    }

    /// A statement of kind `kind` that names a table and nothing else.
    pub open spec fn on_table(kind: StatementType, table: Seq<char>) -> StatementView {
        StatementView {
            statement_result: StatementResult::Success,
            statement_type: kind,
            meta_args: None,
            table_name: Some(table),
            columns_to_create: None,
            row_to_insert: None,
        }
    }

    /// The statement that creates `table` with `columns`.
    pub open spec fn create(table: Seq<char>, columns: Seq<Seq<char>>) -> StatementView {
        StatementView {
            statement_result: StatementResult::Success,
            statement_type: StatementType::Create,
            meta_args: None,
            table_name: Some(table),
            columns_to_create: Some(columns),
            row_to_insert: None,
        }
    }

    /// The statement that inserts `row` into `table`.
    pub open spec fn insert(table: Seq<char>, row: Seq<Seq<char>>) -> StatementView {
        StatementView {
            statement_result: StatementResult::Success,
            statement_type: StatementType::Insert,
            meta_args: None,
            table_name: Some(table),
            columns_to_create: None,
            row_to_insert: Some(row),
        }
    }

    /// Each kind carries its own payload and no other: a meta-command the
    /// rest of its line, a data statement its table, `Create` also the
    /// columns, `Insert` also the row. The kind is `Undefined` exactly when
    /// the verdict is not `Success`, and then there is no payload at all.
    pub open spec fn well_formed(self) -> bool {
        &&& self.statement_type == StatementType::Undefined <==> self.statement_result
            != StatementResult::Success
        &&& self.meta_args is Some <==> self.statement_type == StatementType::MetaHelp
            || self.statement_type == StatementType::MetaPrint
        &&& self.table_name is Some <==> self.statement_type == StatementType::Create
            || self.statement_type == StatementType::Drop || self.statement_type
            == StatementType::Insert || self.statement_type == StatementType::Select
        &&& self.columns_to_create is Some <==> self.statement_type == StatementType::Create
        &&& self.row_to_insert is Some <==> self.statement_type == StatementType::Insert
    }
}

/// The text of an optional string.
pub open spec fn text_of(value: Option<String>) -> Option<Seq<char>> {
    match value {
        Some(s) => Some(s@),
        None => None,
    }
}

/// The text of an optional borrowed string.
pub open spec fn text_of_ref(value: Option<&String>) -> Option<Seq<char>> {
    match value {
        Some(s) => Some(s@),
        None => None,
    }
}

/// The texts of an optional list of strings.
pub open spec fn texts_of(value: Option<Vec<String>>) -> Option<Seq<Seq<char>>> {
    match value {
        Some(v) => Some(texts(v@)),
        None => None,
    }
}

/// The texts of an optional borrowed list of strings.
pub open spec fn texts_of_ref(value: Option<&Vec<String>>) -> Option<Seq<Seq<char>>> {
    match value {
        Some(v) => Some(texts(v@)),
        None => None,
    }
}

/// The compiled form of one input line, as handed to whatever carries it out.
/// Made once by the compiler and read-only from then on; always well formed.
#[derive(Debug, PartialEq, Eq)]
pub struct Statement {
    statement_result: StatementResult,
    statement_type: StatementType,
    meta_args: Option<String>,
    table_name: Option<String>,
    columns_to_create: Option<Vec<String>>,
    row_to_insert: Option<Vec<String>>,
}

impl View for Statement {
    type V = StatementView;

    closed spec fn view(&self) -> StatementView {
        StatementView {
            statement_result: self.statement_result,
            statement_type: self.statement_type,
            meta_args: text_of(self.meta_args),
            table_name: text_of(self.table_name),
            columns_to_create: texts_of(self.columns_to_create),
            row_to_insert: texts_of(self.row_to_insert),
        }
    }
}

impl Statement {
    #[verifier::type_invariant]
    spec fn valid(&self) -> bool {
        self@.well_formed()
    }

    pub(crate) fn new(
        statement_result: StatementResult,
        statement_type: StatementType,
        meta_args: Option<String>,
        table_name: Option<String>,
        columns_to_create: Option<Vec<String>>,
        row_to_insert: Option<Vec<String>>,
    ) -> (statement: Self)
        requires
            (StatementView {
                statement_result,
                statement_type,
                meta_args: text_of(meta_args),
                table_name: text_of(table_name),
                columns_to_create: texts_of(columns_to_create),
                row_to_insert: texts_of(row_to_insert),
            }).well_formed(),
        ensures
            statement@ == (StatementView {
                statement_result,
                statement_type,
                meta_args: text_of(meta_args),
                table_name: text_of(table_name),
                columns_to_create: texts_of(columns_to_create),
                row_to_insert: texts_of(row_to_insert),
            }),
    {
        Self {
            statement_result,
            statement_type,
            meta_args,
            table_name,
            columns_to_create,
            row_to_insert,
        }
    }

    /// The verdict on the line.
    pub fn statement_result(&self) -> (verdict: &StatementResult)
        ensures
            *verdict == self@.statement_result,
            self@.well_formed(),
    {
        proof {
            use_type_invariant(self);
        }
        &self.statement_result
    }

    /// What the line asks for; `Undefined` unless the verdict is `Success`.
    pub fn statement_type(&self) -> (kind: &StatementType)
        ensures
            *kind == self@.statement_type,
            self@.well_formed(),
    {
        proof {
            use_type_invariant(self);
        }
        &self.statement_type
    }

    /// The rest of the line behind a meta keyword; only a meta-command has it.
    pub fn meta_args(&self) -> (args: Option<&String>)
        ensures
            text_of_ref(args) == self@.meta_args,
            self@.well_formed(),
    {
        proof {
            use_type_invariant(self);
        }
        self.meta_args.as_ref()
    }

    /// The table that the statement names; only a data statement has it.
    pub fn table_name(&self) -> (name: Option<&String>)
        ensures
            text_of_ref(name) == self@.table_name,
            self@.well_formed(),
    {
        proof {
            use_type_invariant(self);
        }
        self.table_name.as_ref()
    }

    /// The columns of the table to create; only `Create` has them.
    pub fn columns_to_create(&self) -> (columns: Option<&Vec<String>>)
        ensures
            texts_of_ref(columns) == self@.columns_to_create,
            self@.well_formed(),
    {
        proof {
            use_type_invariant(self);
        }
        self.columns_to_create.as_ref()
    }

    /// The values of the row to insert; only `Insert` has them.
    pub fn row_to_insert(&self) -> (row: Option<&Vec<String>>)
        ensures
            texts_of_ref(row) == self@.row_to_insert,
            self@.well_formed(),
    {
        proof {
            use_type_invariant(self);
        }
        self.row_to_insert.as_ref()
    }
}

} // verus!
