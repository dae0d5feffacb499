//! Searching in the buffer and from the cursor.
use hjkl_buffer::Buffer;
use hjkl_engine::search::{row_matches, search_backward, search_forward, SearchState};
use hjkl_engine::{Cursor, DefaultHost, Editor, Options, Pos, Search};
use regex::Regex;

fn editor(text: &str, pattern: &str) -> Editor<Buffer, DefaultHost> {
    let mut e = Editor::new(Buffer::from_str(text), DefaultHost::new(), Options::default());
    e.set_search_pattern(Some(Regex::new(pattern).unwrap()));
    e
}

#[test]
fn the_cursor_goes_from_match_to_match() {
    let mut e = editor("foo bar foo\nbaz foo", "foo");
    assert!(e.search_advance_forward(false));
    assert_eq!(e.cursor(), (0, 0));
    assert!(e.search_advance_forward(true));
    assert_eq!(e.cursor(), (0, 8));
    assert!(e.search_advance_forward(true));
    assert_eq!(e.cursor(), (1, 4));
    assert!(e.search_advance_forward(true));
    assert_eq!(e.cursor(), (0, 0));
    assert!(e.search_advance_backward(true));
    assert_eq!(e.cursor(), (1, 4));
    assert!(e.search_advance_backward(true));
    assert_eq!(e.cursor(), (0, 8));
    assert!(e.search_advance_backward(false));
    assert_eq!(e.cursor(), (0, 8));
}

#[test]
fn a_search_can_stop_at_the_ends_of_the_text() {
    let mut e = editor("foo bar foo\nbaz foo", "foo");
    e.search_state_mut().wrap_around = false;
    assert!(!e.search_advance_backward(true));
    assert_eq!(e.cursor(), (0, 0));
    e.jump_cursor(1, 4);
    assert!(!e.search_advance_forward(true));
    assert_eq!(e.cursor(), (1, 4));
    assert!(e.search_advance_backward(true));
    assert_eq!(e.cursor(), (0, 8));
}

#[test]
fn a_search_wraps_as_the_settings_say() {
    let mut e = editor("foo bar\nbaz", "foo");
    e.jump_cursor(1, 0);
    e.settings_mut().wrapscan = false;
    assert!(!e.search_advance_forward(true));
    assert_eq!(e.cursor(), (1, 0));
    e.settings_mut().wrapscan = true;
    assert!(e.search_advance_forward(true));
    assert_eq!(e.cursor(), (0, 0));
}

#[test]
fn the_match_at_the_cursor_is_left_out() {
    let mut e = editor("one\nfoo\ntwo", "foo");
    e.jump_cursor(1, 0);
    assert!(!e.search_advance_forward(true));
    assert!(!e.search_advance_backward(true));
    assert!(e.search_advance_forward(false));
    assert!(e.search_advance_backward(false));
    assert_eq!(e.cursor(), (1, 0));
}

#[test]
fn without_a_pattern_there_is_nothing_to_find() {
    let mut e = editor("foo", "foo");
    e.set_search_pattern(None);
    assert!(!e.search_advance_forward(false));
    assert!(!e.search_advance_backward(false));
}

#[test]
fn a_store_is_searched_without_an_editor() {
    let mut b = Buffer::from_str("a1\nb2\nc3");
    let mut s = SearchState::new();
    assert!(s.wrap_around);
    assert!(!search_forward(&mut b, &s, false));
    s.set_pattern(Some(Regex::new("[0-9]").unwrap()));
    assert!(search_forward(&mut b, &s, false));
    assert_eq!(Cursor::cursor(&b), Pos::new(0, 1));
    assert!(search_backward(&mut b, &s, true));
    assert_eq!(Cursor::cursor(&b), Pos::new(2, 1));
}

#[test]
fn matches_of_a_row_are_byte_ranges() {
    let b = Buffer::from_str("x\n\u{e9} foo foo");
    let re = Regex::new("foo").unwrap();
    assert_eq!(row_matches(&b, &re, 1), vec![(3, 6), (7, 10)]);
    assert_eq!(row_matches(&b, &re, 0), vec![]);
    assert_eq!(row_matches(&b, &re, 9), vec![]);
}

#[test]
fn found_positions_count_characters() {
    let b = Buffer::from_str("\u{e9}\u{e9} foo\nfoo");
    let re = Regex::new("foo").unwrap();
    assert_eq!(b.find_next(Pos::new(0, 1), &re), Some(Pos::new(0, 3)..Pos::new(0, 6)));
    assert_eq!(b.find_next(Pos::new(0, 4), &re), Some(Pos::new(1, 0)..Pos::new(1, 3)));
    assert_eq!(b.find_prev(Pos::new(0, 2), &re), Some(Pos::new(1, 0)..Pos::new(1, 3)));
    assert_eq!(b.find_prev(Pos::new(1, 0), &re), Some(Pos::new(1, 0)..Pos::new(1, 3)));
}

#[test]
fn the_last_match_of_an_earlier_row_comes_first() {
    let b = Buffer::from_str("foo foo\nbar\nbar");
    let re = Regex::new("foo").unwrap();
    assert_eq!(b.find_prev(Pos::new(2, 0), &re), Some(Pos::new(0, 4)..Pos::new(0, 7)));
    assert_eq!(b.find_prev(Pos::new(0, 3), &re), Some(Pos::new(0, 0)..Pos::new(0, 3)));
}

#[test]
fn a_search_wraps_on_one_row() {
    let mut e = editor("foo x foo", "foo");
    e.jump_cursor(0, 6);
    assert!(e.search_advance_forward(true));
    assert_eq!(e.cursor(), (0, 0));
    assert!(e.search_advance_backward(true));
    assert_eq!(e.cursor(), (0, 6));
    // A match before the cursor on its own row, and behind it.
    let mut e = editor("one\nfoo two\nthree", "foo");
    e.jump_cursor(1, 4);
    assert!(e.search_advance_forward(false));
    assert_eq!(e.cursor(), (1, 0));
    let mut e = editor("one\ntwo foo\nthree", "foo");
    e.jump_cursor(1, 1);
    assert!(e.search_advance_backward(true));
    assert_eq!(e.cursor(), (1, 4));
    e.search_state_mut().wrap_around = false;
    e.jump_cursor(1, 1);
    assert!(!e.search_advance_backward(true));
    assert_eq!(e.cursor(), (1, 1));
}
