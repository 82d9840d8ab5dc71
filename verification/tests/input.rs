use rsqlite::compiler::compile;
use rsqlite::input::InputBuffer;
use rsqlite::statement::{StatementResult, StatementType};
use rsqlite::trim::trim;

#[test]
fn trim_removes_whitespace_at_both_ends() {
    assert_eq!(trim("  a b \n"), "a b");
    assert_eq!(trim("a"), "a");
    assert_eq!(trim(""), "");
    assert_eq!(trim(" \t\r\n"), "");
    assert_eq!(trim("\u{a0}x\u{3000}"), "x");
    assert_eq!(trim(" é , "), "é ,");
    assert_eq!(trim("x  "), "x");
    assert_eq!(trim("  x"), "x");
}

#[test]
fn trim_agrees_with_the_standard_library() {
    for s in ["", " ", "a", " a", "a ", "\ta b\r\n", "\u{2003}é\u{85}", "\u{200b} x"] {
        assert_eq!(trim(s), s.trim());
    }
}

#[test]
fn new_buffer_is_empty_and_whole() {
    let buffer = InputBuffer::new();
    assert_eq!(buffer.contents(), "");
    assert!(buffer.is_whole());
}

#[test]
fn meta_command_is_whole_after_one_line() {
    let mut buffer = InputBuffer::new();
    assert!(buffer.push_line("  .help me \n"));
    assert_eq!(buffer.contents(), ".help me");
}

#[test]
fn statement_is_whole_at_the_terminator() {
    let mut buffer = InputBuffer::new();
    assert!(!buffer.push_line("insert into t\n"));
    assert!(!buffer.is_whole());
    assert!(!buffer.push_line("  (a,\n"));
    assert!(!buffer.push_line("\n"));
    assert!(buffer.push_line("b);  \n"));
    assert!(buffer.is_whole());
    assert_eq!(buffer.contents(), "insert into t\n(a,\n\nb);");
    let statement = compile(buffer.contents());
    assert_eq!(*statement.statement_result(), StatementResult::Success);
    assert_eq!(*statement.statement_type(), StatementType::Insert);
    assert_eq!(
        statement.row_to_insert(),
        Some(&vec!["a".to_string(), "b".to_string()])
    );
}

#[test]
fn statement_on_one_line() {
    let mut buffer = InputBuffer::new();
    assert!(buffer.push_line("drop t;\n"));
    assert_eq!(buffer.contents(), "drop t;");
}

#[test]
fn blank_first_line_leaves_the_buffer_empty() {
    let mut buffer = InputBuffer::new();
    assert!(buffer.push_line("   \n"));
    assert_eq!(buffer.contents(), "");
    assert!(!buffer.push_line("select t"));
    assert_eq!(buffer.contents(), "select t");
}

#[test]
fn clear_forgets_everything() {
    let mut buffer = InputBuffer::new();
    assert!(!buffer.push_line("select"));
    buffer.clear();
    assert_eq!(buffer.contents(), "");
    assert!(buffer.is_whole());
    assert!(buffer.push_line(".exit"));
    assert_eq!(buffer.contents(), ".exit");
}
