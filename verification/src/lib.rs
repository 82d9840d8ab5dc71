//! A statement compiler for a small line-oriented, SQL-like command language.
//!
//! One line of text goes in, one `Statement` comes out: a meta-command, a
//! data statement on a table, or a verdict that says why the line is neither.
//!
//! - `chars`: the character classes of the language.
//! - `line`: a line as a sequence of characters with positions.
//! - `words`: the word scanner.
//! - `lists`: the scanner for parenthesised lists.
//! - `keywords`: the keywords, matched without regard to case.
//! - `statement`: the compiled form of a line.
//! - `compiler`: the compiler itself.
//! - `trim`, `input`: gathering the lines of one command.
//! - `forms`, `sentences`, `letter_case`: theorems on what the scanners and
//!   the compiler make of lists, commands and statements as they are usually
//!   written.

pub mod chars;
pub mod compiler;
pub mod forms;
pub mod input;
pub mod keywords;
pub mod letter_case;
pub mod line;
pub mod lists;
pub mod sentences;
pub mod statement;
pub mod trim;
pub mod words;
