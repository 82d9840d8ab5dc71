use rsqlite::line::Line;
use rsqlite::lists::{next_list_in, read_next_list};

fn text(s: &str) -> String {
    s.to_string()
}

fn list(items: &[&str]) -> Vec<String> {
    let mut out = Vec::new();
    for item in items {
        out.push(item.to_string());
    }
    out
}

#[test]
fn list_with_commas() {
    assert_eq!(read_next_list(&text("(x, y)"), 0), (true, list(&["x", "y"]), 5));
}

#[test]
fn list_with_blanks_alone() {
    assert_eq!(read_next_list(&text("(x y)"), 0), (true, list(&["x", "y"]), 4));
}

#[test]
fn empty_list_fails() {
    assert_eq!(read_next_list(&text("()"), 0), (false, list(&[]), 1));
}

#[test]
fn list_with_commas_alone() {
    assert_eq!(read_next_list(&text("(a,b,c)"), 0), (true, list(&["a", "b", "c"]), 6));
}

#[test]
fn list_of_one_item() {
    assert_eq!(read_next_list(&text("(a)"), 0), (true, list(&["a"]), 2));
}

#[test]
fn list_in_front_of_the_terminator() {
    assert_eq!(read_next_list(&text(" (1, alice, 30);"), 0), (true, list(&["1", "alice", "30"]), 14));
}

#[test]
fn blanks_in_front_of_the_list_are_skipped() {
    assert_eq!(read_next_list(&text(" \t\n(a)"), 0), (true, list(&["a"]), 5));
}

#[test]
fn blanks_in_front_of_the_closing_parenthesis() {
    assert_eq!(read_next_list(&text("(a, b )"), 0), (true, list(&["a", "b"]), 6));
    assert_eq!(read_next_list(&text("( )"), 0), (false, list(&[]), 2));
    assert_eq!(read_next_list(&text("(a, )"), 0), (true, list(&["a"]), 4));
}

#[test]
fn blanks_behind_the_opening_parenthesis() {
    assert_eq!(read_next_list(&text("( a, b)"), 0), (true, list(&["a", "b"]), 6));
    assert_eq!(read_next_list(&text("(, a)"), 0), (true, list(&["a"]), 4));
}

#[test]
fn terminator_stops_the_scan() {
    assert_eq!(read_next_list(&text(";(a)"), 0), (false, list(&[]), 0));
    assert_eq!(read_next_list(&text("(a;b)"), 0), (false, list(&["a"]), 2));
    assert_eq!(read_next_list(&text("  ;"), 0), (false, list(&[]), 2));
}

#[test]
fn second_opening_parenthesis_stops_the_scan() {
    assert_eq!(read_next_list(&text("((a)"), 0), (false, list(&[]), 1));
    assert_eq!(read_next_list(&text("(a (b))"), 0), (true, list(&["a", "(b)"]), 6));
}

#[test]
fn opening_parenthesis_inside_a_word_belongs_to_it() {
    assert_eq!(read_next_list(&text("(a(b)"), 0), (true, list(&["a(b"]), 4));
}

#[test]
fn closing_parenthesis_without_a_list() {
    assert_eq!(read_next_list(&text(")"), 0), (false, list(&[]), 0));
    assert_eq!(read_next_list(&text("  )"), 0), (false, list(&[]), 2));
}

#[test]
fn unclosed_list_fails() {
    assert_eq!(read_next_list(&text("(a, b"), 0), (false, list(&["a", "b"]), 5));
    assert_eq!(read_next_list(&text("(a, b;"), 0), (false, list(&["a", "b"]), 5));
    assert_eq!(read_next_list(&text("("), 0), (false, list(&[]), 1));
}

#[test]
fn missing_word_ends_the_scan_with_an_empty_element() {
    assert_eq!(read_next_list(&text("(a, "), 0), (false, list(&["a", ""]), 4));
    assert_eq!(read_next_list(&text("(a, ;"), 0), (false, list(&["a", ""]), 4));
    assert_eq!(read_next_list(&text("( "), 0), (false, list(&[""]), 2));
}

#[test]
fn words_in_front_of_the_list_are_gathered() {
    assert_eq!(read_next_list(&text("x (a)"), 0), (true, list(&["x", "a"]), 4));
    assert_eq!(read_next_list(&text("a)"), 0), (true, list(&["a"]), 1));
}

#[test]
fn text_behind_the_closing_parenthesis_joins_the_word() {
    assert_eq!(read_next_list(&text("(a, b)x"), 0), (false, list(&["a", "b)x"]), 7));
    assert_eq!(read_next_list(&text("(a) b"), 0), (true, list(&["a"]), 2));
}

#[test]
fn word_of_closing_parentheses() {
    assert_eq!(read_next_list(&text("(a, ))"), 0), (true, list(&["a", ")"]), 5));
}

#[test]
fn scan_from_the_middle_of_a_line() {
    let input = text("create t (a, b)");
    assert_eq!(read_next_list(&input, 8), (true, list(&["a", "b"]), 14));
    let line = Line::new(&input);
    assert_eq!(next_list_in(&line, 8), (true, list(&["a", "b"]), 14));
}

#[test]
fn scan_at_or_beyond_the_end_finds_nothing() {
    assert_eq!(read_next_list(&text(""), 0), (false, list(&[]), 0));
    assert_eq!(read_next_list(&text("(a)"), 3), (false, list(&[]), 3));
    assert_eq!(read_next_list(&text("(a)"), 9), (false, list(&[]), 9));
    assert_eq!(read_next_list(&text("(a)"), usize::MAX), (false, list(&[]), usize::MAX));
}

#[test]
fn positions_in_lists_count_characters() {
    assert_eq!(read_next_list(&text("(é, ñ)"), 0), (true, list(&["é", "ñ"]), 5));
}
