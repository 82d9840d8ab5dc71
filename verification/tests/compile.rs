use rsqlite::compiler::{
    begins_alphabetic, compile, compile_meta, compile_statement, is_blank_name, parse_error,
    statement_create, statement_insert, statement_on_table, terminate, unrecognized_command,
};
use rsqlite::line::Line;
use rsqlite::statement::{Statement, StatementResult, StatementType};

fn text(s: &str) -> String {
    s.to_string()
}

fn list(items: &[&str]) -> Vec<String> {
    let mut out = Vec::new();
    for item in items {
        out.push(item.to_string());
    }
    out
}

fn run(s: &str) -> Statement {
    compile(&text(s))
}

fn assert_rejected(statement: &Statement, verdict: StatementResult) {
    assert_eq!(*statement.statement_result(), verdict);
    assert_eq!(*statement.statement_type(), StatementType::Undefined);
    assert_eq!(statement.meta_args(), None);
    assert_eq!(statement.table_name(), None);
    assert_eq!(statement.columns_to_create(), None);
    assert_eq!(statement.row_to_insert(), None);
}

fn assert_on_table(statement: &Statement, kind: StatementType, table: &str) {
    assert_eq!(*statement.statement_result(), StatementResult::Success);
    assert_eq!(*statement.statement_type(), kind);
    assert_eq!(statement.meta_args(), None);
    assert_eq!(statement.table_name(), Some(&text(table)));
    assert_eq!(statement.columns_to_create(), None);
    assert_eq!(statement.row_to_insert(), None);
}

fn assert_meta(statement: &Statement, kind: StatementType, args: &str) {
    assert_eq!(*statement.statement_result(), StatementResult::Success);
    assert_eq!(*statement.statement_type(), kind);
    assert_eq!(statement.meta_args(), Some(&text(args)));
    assert_eq!(statement.table_name(), None);
    assert_eq!(statement.columns_to_create(), None);
    assert_eq!(statement.row_to_insert(), None);
}

fn assert_insert(statement: &Statement, table: &str, row: &[&str]) {
    assert_eq!(*statement.statement_result(), StatementResult::Success);
    assert_eq!(*statement.statement_type(), StatementType::Insert);
    assert_eq!(statement.meta_args(), None);
    assert_eq!(statement.table_name(), Some(&text(table)));
    assert_eq!(statement.columns_to_create(), None);
    assert_eq!(statement.row_to_insert(), Some(&list(row)));
}

fn assert_create(statement: &Statement, table: &str, columns: &[&str]) {
    assert_eq!(*statement.statement_result(), StatementResult::Success);
    assert_eq!(*statement.statement_type(), StatementType::Create);
    assert_eq!(statement.meta_args(), None);
    assert_eq!(statement.table_name(), Some(&text(table)));
    assert_eq!(statement.columns_to_create(), Some(&list(columns)));
    assert_eq!(statement.row_to_insert(), None);
}

#[test]
fn empty_line_is_unrecognized() {
    assert_rejected(&run(""), StatementResult::Unrecognized);
}

#[test]
fn unknown_meta_command_is_unrecognized() {
    assert_rejected(&run(".tables"), StatementResult::Unrecognized);
    assert_rejected(&run(".helpme"), StatementResult::Unrecognized);
    assert_rejected(&run("."), StatementResult::Unrecognized);
    assert_rejected(&run(".;help"), StatementResult::Unrecognized);
    assert_rejected(&run(". "), StatementResult::Unrecognized);
    assert_rejected(&run(".hel p"), StatementResult::Unrecognized);
}

#[test]
fn unknown_statement_is_unrecognized() {
    assert_rejected(&run("update t"), StatementResult::Unrecognized);
    assert_rejected(&run("help"), StatementResult::Unrecognized);
    assert_rejected(&run(";"), StatementResult::Unrecognized);
    assert_rejected(&run("   "), StatementResult::Unrecognized);
    assert_rejected(&run("inserts into t (a)"), StatementResult::Unrecognized);
    assert_rejected(&run("(create t (a))"), StatementResult::Unrecognized);
}

#[test]
fn help_keeps_the_rest_of_the_line() {
    assert_meta(&run(".help"), StatementType::MetaHelp, "");
    assert_meta(&run(".help me now"), StatementType::MetaHelp, " me now");
    assert_meta(&run(".help;"), StatementType::MetaHelp, ";");
    assert_meta(&run(".help,  x "), StatementType::MetaHelp, ",  x ");
}

#[test]
fn print_keeps_the_rest_of_the_line() {
    assert_meta(&run(".print hello, world"), StatementType::MetaPrint, " hello, world");
    assert_meta(&run(".print"), StatementType::MetaPrint, "");
    assert_meta(&run(". print x"), StatementType::MetaPrint, " x");
    assert_meta(&run(".print\tÄb ;(y)"), StatementType::MetaPrint, "\tÄb ;(y)");
}

#[test]
fn exit_asks_to_terminate() {
    assert_rejected(&run(".exit"), StatementResult::Terminate);
    assert_rejected(&run(".EXIT now"), StatementResult::Terminate);
    assert_rejected(&run(".  Exit;"), StatementResult::Terminate);
}

#[test]
fn exit_without_the_marker_is_no_command() {
    assert_rejected(&run("exit"), StatementResult::Unrecognized);
}

#[test]
fn insert_with_values() {
    assert_insert(&run("insert into users (1, alice, 30);"), "users", &["1", "alice", "30"]);
    assert_insert(&run("insert into t (v);"), "t", &["v"]);
    assert_insert(&run("insert into t (a b);"), "t", &["a", "b"]);
    assert_insert(&run("insert into t (a,b)"), "t", &["a", "b"]);
    assert_insert(&run("insert into  t  (a, b) ;"), "t", &["a", "b"]);
    assert_insert(&run("insert\ninto t\n(a,\nb);"), "t", &["a", "b"]);
}

#[test]
fn insert_without_into_is_a_parse_error() {
    assert_rejected(&run("insert users (1, 2);"), StatementResult::ParseError);
    assert_rejected(&run("insert (1, 2);"), StatementResult::ParseError);
    assert_rejected(&run("insert"), StatementResult::ParseError);
    assert_rejected(&run("insert;into t (a)"), StatementResult::ParseError);
    assert_rejected(&run("insert in t (a);"), StatementResult::ParseError);
    assert_rejected(&run("insert intoo t (a);"), StatementResult::ParseError);
}

#[test]
fn insert_needs_a_table_that_begins_with_a_letter() {
    assert_rejected(&run("insert into 1users (1, 2);"), StatementResult::ParseError);
    assert_rejected(&run("insert into (1, 2);"), StatementResult::ParseError);
    assert_rejected(&run("insert into _t (1);"), StatementResult::ParseError);
    assert_rejected(&run("insert into"), StatementResult::ParseError);
    assert_rejected(&run("insert into ;t (1)"), StatementResult::ParseError);
    assert_insert(&run("insert into été (1);"), "été", &["1"]);
    assert_insert(&run("insert into 表 (1);"), "表", &["1"]);
    assert_insert(&run("insert into t1 (1);"), "t1", &["1"]);
}

#[test]
fn insert_needs_a_well_formed_list() {
    assert_rejected(&run("insert into t ();"), StatementResult::ParseError);
    assert_rejected(&run("insert into t;"), StatementResult::ParseError);
    assert_rejected(&run("insert into t"), StatementResult::ParseError);
    assert_rejected(&run("insert into t (a, b"), StatementResult::ParseError);
    assert_rejected(&run("insert into t (a, b;"), StatementResult::ParseError);
    assert_rejected(&run("insert into t ((a));"), StatementResult::ParseError);
}

#[test]
fn create_with_columns() {
    assert_create(&run("create users (id, name)"), "users", &["id", "name"]);
    assert_create(&run("create users (id, name);"), "users", &["id", "name"]);
    assert_create(&run("create t (c)"), "t", &["c"]);
    assert_create(&run("create 9t (a b c)"), "9t", &["a", "b", "c"]);
}

#[test]
fn create_without_columns_is_a_parse_error() {
    assert_rejected(&run("create users ()"), StatementResult::ParseError);
    assert_rejected(&run("create users ();"), StatementResult::ParseError);
    assert_rejected(&run("create users"), StatementResult::ParseError);
    assert_rejected(&run("create users;"), StatementResult::ParseError);
    assert_rejected(&run("create"), StatementResult::ParseError);
    assert_rejected(&run("create users (a, b"), StatementResult::ParseError);
    assert_rejected(&run("create users ( )"), StatementResult::ParseError);
}

#[test]
fn create_takes_the_next_word_as_the_table() {
    assert_create(&run("create (a, b)"), "(a", &["b"]);
}

#[test]
fn drop_with_a_table() {
    assert_on_table(&run("drop users"), StatementType::Drop, "users");
    assert_on_table(&run("drop users;"), StatementType::Drop, "users");
    assert_on_table(&run("drop   users  and more"), StatementType::Drop, "users");
    assert_on_table(&run("drop 1"), StatementType::Drop, "1");
}

#[test]
fn select_with_a_table() {
    assert_on_table(&run("select users"), StatementType::Select, "users");
    assert_on_table(&run("select users;"), StatementType::Select, "users");
    assert_on_table(&run("select ,users"), StatementType::Select, "users");
    assert_on_table(&run("select (x)"), StatementType::Select, "(x)");
}

#[test]
fn drop_and_select_need_a_table() {
    assert_rejected(&run("drop"), StatementResult::ParseError);
    assert_rejected(&run("drop   "), StatementResult::ParseError);
    assert_rejected(&run("drop;"), StatementResult::ParseError);
    assert_rejected(&run("drop ;users"), StatementResult::ParseError);
    assert_rejected(&run("select"), StatementResult::ParseError);
    assert_rejected(&run("select \t\n,"), StatementResult::ParseError);
    assert_rejected(&run("select ;"), StatementResult::ParseError);
}

#[test]
fn table_of_whitespace_alone_is_a_parse_error() {
    assert_rejected(&run("drop \r"), StatementResult::ParseError);
    assert_rejected(&run("drop \u{a0}\u{2003}"), StatementResult::ParseError);
    assert_rejected(&run("select \u{3000};"), StatementResult::ParseError);
    assert_on_table(&run("select \u{a0}x"), StatementType::Select, "\u{a0}x");
    assert_on_table(&run("drop \u{200b}"), StatementType::Drop, "\u{200b}");
}

#[test]
fn keywords_are_matched_without_regard_to_case() {
    assert_insert(&run("INSERT INTO Users (A, b);"), "Users", &["A", "b"]);
    assert_insert(&run("Insert Into Users (A, b);"), "Users", &["A", "b"]);
    assert_insert(&run("insert into Users (A, b);"), "Users", &["A", "b"]);
    assert_insert(&run("iNsErT iNtO Users (A, b);"), "Users", &["A", "b"]);
    assert_create(&run("CREATE Tab (Col1, COL2)"), "Tab", &["Col1", "COL2"]);
    assert_on_table(&run("DROP Users"), StatementType::Drop, "Users");
    assert_on_table(&run("SeLeCt USERS"), StatementType::Select, "USERS");
    assert_meta(&run(".HELP Me"), StatementType::MetaHelp, " Me");
    assert_meta(&run(".Print Hello"), StatementType::MetaPrint, " Hello");
}

#[test]
fn only_ascii_letters_are_folded() {
    assert_rejected(&run("\u{130}nsert into t (a);"), StatementResult::Unrecognized);
    assert_rejected(&run("ınsert into t (a);"), StatementResult::Unrecognized);
    assert_rejected(&run("select\u{a0}t"), StatementResult::Unrecognized);
}

#[test]
fn separators_in_front_of_the_keyword_are_skipped() {
    assert_on_table(&run("  drop t"), StatementType::Drop, "t");
    assert_on_table(&run(",select t"), StatementType::Select, "t");
}

#[test]
fn compiling_twice_gives_equal_statements() {
    for line in [
        "",
        ".help x",
        ".exit",
        ".nothing",
        "insert into t (a, b);",
        "insert t (a);",
        "create t (a, b)",
        "create t ()",
        "drop t",
        "select",
        "bogus",
    ] {
        assert_eq!(run(line), run(line));
    }
    assert_ne!(run("drop t"), run("select t"));
    assert_ne!(run("drop t"), run("drop u"));
    assert_ne!(run("insert into t (a, b);"), run("insert into t (b, a);"));
}

#[test]
fn compile_meta_and_compile_statement_alone() {
    let meta = text(".print x");
    assert_meta(&compile_meta(&Line::new(&meta)), StatementType::MetaPrint, " x");
    let odd = text("xprint y");
    assert_meta(&compile_meta(&Line::new(&odd)), StatementType::MetaPrint, " y");
    let drop = text("drop t");
    assert_on_table(&compile_statement(&Line::new(&drop)), StatementType::Drop, "t");
    let dotted = text(".help");
    assert_rejected(&compile_statement(&Line::new(&dotted)), StatementResult::Unrecognized);
    let none = text("");
    assert_rejected(&compile_statement(&Line::new(&none)), StatementResult::Unrecognized);
}

#[test]
fn rejections_carry_nothing() {
    assert_rejected(&unrecognized_command(), StatementResult::Unrecognized);
    assert_rejected(&parse_error(), StatementResult::ParseError);
    assert_rejected(&terminate(), StatementResult::Terminate);
}

#[test]
fn statements_from_their_parts() {
    assert_on_table(
        &statement_on_table(StatementType::Drop, text("t"), false),
        StatementType::Drop,
        "t",
    );
    assert_on_table(
        &statement_on_table(StatementType::Select, text("t"), false),
        StatementType::Select,
        "t",
    );
    assert_rejected(
        &statement_on_table(StatementType::Select, text("t"), true),
        StatementResult::ParseError,
    );
    assert_insert(&statement_insert(true, text("t"), true, true, list(&["a"])), "t", &["a"]);
    assert_rejected(
        &statement_insert(false, text("t"), true, true, list(&["a"])),
        StatementResult::ParseError,
    );
    assert_rejected(
        &statement_insert(true, text("t"), false, true, list(&["a"])),
        StatementResult::ParseError,
    );
    assert_rejected(
        &statement_insert(true, text("t"), true, false, list(&["a"])),
        StatementResult::ParseError,
    );
    assert_create(&statement_create(text("t"), true, list(&["a", "b"])), "t", &["a", "b"]);
    assert_rejected(
        &statement_create(text("t"), false, list(&["a", "b"])),
        StatementResult::ParseError,
    );
}

#[test]
fn blank_names() {
    assert!(is_blank_name(&text("")));
    assert!(is_blank_name(&text(" \t\r\n")));
    assert!(is_blank_name(&text("\u{a0}\u{2028}")));
    assert!(!is_blank_name(&text("a")));
    assert!(!is_blank_name(&text("  a ")));
    assert!(!is_blank_name(&text("   ,")));
}

#[test]
fn names_that_begin_with_a_letter() {
    assert!(begins_alphabetic(&text("a1")));
    assert!(begins_alphabetic(&text("Zeta")));
    assert!(begins_alphabetic(&text("ñu")));
    assert!(begins_alphabetic(&text("表")));
    assert!(!begins_alphabetic(&text("")));
    assert!(!begins_alphabetic(&text("1a")));
    assert!(!begins_alphabetic(&text("_a")));
    assert!(!begins_alphabetic(&text(" a")));
    assert!(!begins_alphabetic(&text("(a")));
}
