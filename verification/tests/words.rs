use rsqlite::chars::{blank, separator, to_lower, word_char};
use rsqlite::line::Line;
use rsqlite::words::{next_word_in, read_next_word, word_bounds};

fn text(s: &str) -> String {
    s.to_string()
}

#[test]
fn words_are_read_one_after_the_other() {
    let input = text("a, b,c  ;");
    let (first, at) = read_next_word(&input, 0);
    assert_eq!((first.as_str(), at), ("a", 1));
    let (second, at) = read_next_word(&input, at);
    assert_eq!((second.as_str(), at), ("b", 4));
    let (third, at) = read_next_word(&input, at);
    assert_eq!((third.as_str(), at), ("c", 6));
    let (fourth, at) = read_next_word(&input, at);
    assert_eq!((fourth.as_str(), at), ("", 8));
    let (fifth, at) = read_next_word(&input, at);
    assert_eq!((fifth.as_str(), at), ("", 8));
}

#[test]
fn word_runs_to_the_end_of_the_line() {
    let input = text("drop users");
    assert_eq!(read_next_word(&input, 4), (text("users"), 10));
    assert_eq!(read_next_word(&input, 0), (text("drop"), 4));
}

#[test]
fn terminator_ends_a_word_at_once() {
    let input = text("ab;cd");
    assert_eq!(read_next_word(&input, 0), (text("ab"), 2));
    assert_eq!(read_next_word(&input, 2), (text(""), 2));
    assert_eq!(read_next_word(&input, 3), (text("cd"), 5));
}

#[test]
fn terminator_behind_separators_leaves_the_word_empty() {
    let input = text("  ,\t\n;x");
    assert_eq!(read_next_word(&input, 0), (text(""), 5));
}

#[test]
fn every_separator_is_skipped_in_front_of_a_word() {
    let input = text(" ,\t\n,, word next");
    assert_eq!(read_next_word(&input, 0), (text("word"), 11));
}

#[test]
fn parentheses_belong_to_words() {
    let input = text("(a b) c");
    assert_eq!(read_next_word(&input, 0), (text("(a"), 2));
    assert_eq!(read_next_word(&input, 2), (text("b)"), 5));
}

#[test]
fn scan_at_the_end_of_the_line_finds_nothing() {
    let input = text("abc");
    assert_eq!(read_next_word(&input, 3), (text(""), 3));
    assert_eq!(read_next_word(&text(""), 0), (text(""), 0));
}

#[test]
fn scan_beyond_the_line_stays_where_it_is() {
    let input = text("abc");
    assert_eq!(read_next_word(&input, 7), (text(""), 7));
    assert_eq!(read_next_word(&input, usize::MAX), (text(""), usize::MAX));
}

#[test]
fn only_separators_left_ends_at_the_length() {
    let input = text("ab  , ");
    assert_eq!(read_next_word(&input, 2), (text(""), 6));
}

#[test]
fn positions_count_characters_not_bytes() {
    let input = text("é ñandú, x");
    assert_eq!(read_next_word(&input, 0), (text("é"), 1));
    assert_eq!(read_next_word(&input, 1), (text("ñandú"), 7));
    assert_eq!(read_next_word(&input, 7), (text("x"), 10));
}

#[test]
fn other_whitespace_does_not_separate() {
    let input = text("a\rb\u{a0}c d");
    assert_eq!(read_next_word(&input, 0), (text("a\rb\u{a0}c"), 5));
}

#[test]
fn word_bounds_give_start_and_end() {
    let input = text("  ab, cd");
    let line = Line::new(&input);
    assert_eq!(word_bounds(&line, 0), (2, 4));
    assert_eq!(word_bounds(&line, 4), (6, 8));
    assert_eq!(word_bounds(&line, 8), (8, 8));
    assert_eq!(word_bounds(&line, 20), (20, 20));
    assert_eq!(next_word_in(&line, 3), (text("b"), 4));
}

#[test]
fn line_gives_length_characters_and_parts() {
    let line = Line::new("añb;");
    assert_eq!(line.len(), 4);
    assert_eq!(line.peek(0), Some('a'));
    assert_eq!(line.peek(1), Some('ñ'));
    assert_eq!(line.peek(3), Some(';'));
    assert_eq!(line.peek(4), None);
    assert_eq!(line.slice(1, 3), "ñb");
    assert_eq!(line.slice(2, 2), "");
    assert_eq!(line.slice(0, 4), "añb;");
    let empty = Line::new("");
    assert_eq!(empty.len(), 0);
    assert_eq!(empty.peek(0), None);
}

#[test]
fn character_classes() {
    for c in [' ', '\t', '\n'] {
        assert!(blank(c));
        assert!(separator(c));
        assert!(!word_char(c));
    }
    assert!(!blank(','));
    assert!(separator(','));
    assert!(!word_char(','));
    assert!(!separator(';'));
    assert!(!word_char(';'));
    for c in ['a', 'Z', '(', ')', '.', '\r', '0', 'é'] {
        assert!(!blank(c));
        assert!(!separator(c));
        assert!(word_char(c));
    }
}

#[test]
fn folding_lowers_ascii_capitals_only() {
    assert_eq!(to_lower('A'), 'a');
    assert_eq!(to_lower('Z'), 'z');
    assert_eq!(to_lower('M'), 'm');
    assert_eq!(to_lower('a'), 'a');
    assert_eq!(to_lower('z'), 'z');
    assert_eq!(to_lower('@'), '@');
    assert_eq!(to_lower('['), '[');
    assert_eq!(to_lower('5'), '5');
    assert_eq!(to_lower('É'), 'É');
    assert_eq!(to_lower('\u{212a}'), '\u{212a}');
}
