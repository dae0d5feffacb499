//! Characters and strings, and the motions that read them.
use hjkl_buffer::Buffer;
use hjkl_engine::motions::{
    move_first_non_blank, move_last_non_blank, move_paragraph_next, move_paragraph_prev,
    move_word_back, move_word_end, move_word_end_back, move_word_fwd,
};
use hjkl_engine::text::{
    advance, byte_length, byte_to_col, char_byte_count, char_count, is_white_space, push_integer,
    push_number, same_text, string_of,
};
use hjkl_engine::{Cursor, Pos, Query};

fn with_cursor(text: &str, line: u32, col: u32) -> Buffer {
    let mut b = Buffer::from_str(text);
    Cursor::set_cursor(&mut b, Pos::new(line, col));
    b
}

#[test]
fn blanks_are_those_of_unicode() {
    for n in 0..=0x10ffffu32 {
        if let Some(c) = char::from_u32(n) {
            assert_eq!(is_white_space(c), c.is_whitespace(), "{n:#x}");
        }
    }
}

#[test]
fn characters_take_their_bytes() {
    for n in 0..=0x10ffffu32 {
        if let Some(c) = char::from_u32(n) {
            assert_eq!(char_byte_count(c), c.len_utf8(), "{n:#x}");
        }
    }
}

#[test]
fn a_byte_belongs_to_its_character() {
    let s = "a\u{e9}b";
    let cols: Vec<usize> = (0..6).map(|i| byte_to_col(s, i)).collect();
    assert_eq!(cols, vec![0, 1, 1, 2, 3, 3]);
    assert_eq!(byte_length(s), 4);
    assert_eq!(char_count(s), 3);
}

#[test]
fn numbers_are_written_in_decimal() {
    for n in [0u64, 7, 10, 99, 100, 1234567890, u64::MAX] {
        let mut s = String::from("n=");
        push_number(&mut s, n);
        assert_eq!(s, format!("n={n}"));
    }
    for n in [0i64, -1, 42, i64::MIN, i64::MAX] {
        let mut s = String::new();
        push_integer(&mut s, n);
        assert_eq!(s, n.to_string());
    }
}

#[test]
fn small_helpers() {
    assert_eq!(advance(3, 4, 10), 7);
    assert_eq!(advance(3, 40, 10), 10);
    assert_eq!(advance(usize::MAX, usize::MAX, 10), 10);
    assert!(same_text("ab", "ab"));
    assert!(!same_text("ab", "ac"));
    assert!(!same_text("ab", "abc"));
    assert_eq!(string_of(&vec!['a', 'b', 'c'], 1, 3), "bc");
}

#[test]
fn the_list_says_what_belongs_to_a_word() {
    let mut b = with_cursor("a1-b c", 0, 0);
    move_word_fwd(&mut b, false, 1, "@,48-57,_,192-255");
    assert_eq!(Cursor::cursor(&b), Pos::new(0, 2));
    let mut b = with_cursor("a1-b c", 0, 0);
    move_word_fwd(&mut b, false, 1, "@");
    assert_eq!(Cursor::cursor(&b), Pos::new(0, 1));
    let mut b = with_cursor("a1-b c", 0, 0);
    move_word_fwd(&mut b, false, 1, "@,48-57,-");
    assert_eq!(Cursor::cursor(&b), Pos::new(0, 5));
}

#[test]
fn the_first_and_the_last_character_that_is_no_blank() {
    let mut b = with_cursor(" \t\u{3000}ab  ", 0, 0);
    move_first_non_blank(&mut b);
    assert_eq!(Cursor::cursor(&b), Pos::new(0, 3));
    move_last_non_blank(&mut b);
    assert_eq!(Cursor::cursor(&b), Pos::new(0, 4));
    let mut b = with_cursor("   ", 0, 2);
    move_last_non_blank(&mut b);
    assert_eq!(Cursor::cursor(&b), Pos::new(0, 0));
    Cursor::set_cursor(&mut b, Pos::new(0, 2));
    move_first_non_blank(&mut b);
    assert_eq!(Cursor::cursor(&b), Pos::new(0, 0));
}

#[test]
fn paragraphs_end_at_blank_rows() {
    let text = "a\nb\n\nc\nd\n\ne";
    let mut b = with_cursor(text, 0, 0);
    let mut rows = Vec::new();
    for _ in 0..4 {
        move_paragraph_next(&mut b, 1);
        rows.push(Cursor::cursor(&b).line);
    }
    assert_eq!(rows, vec![2, 5, 6, 6]);
    let mut rows = Vec::new();
    for _ in 0..3 {
        move_paragraph_prev(&mut b, 1);
        rows.push(Cursor::cursor(&b).line);
    }
    assert_eq!(rows, vec![5, 2, 0]);
    move_paragraph_next(&mut b, 2);
    assert_eq!(Cursor::cursor(&b), Pos::new(5, 0));
}

#[test]
fn offsets_and_places_are_inverse() {
    let b = Buffer::from_str("a\u{e9}\n\n\u{6f22}b");
    for line in 0..Query::line_count(&b) {
        let len = Query::line(&b, line).chars().count() as u32;
        for col in 0..=len {
            let p = Pos::new(line, col);
            assert_eq!(b.pos_at_byte(b.byte_offset(p)), p);
        }
    }
    assert_eq!(b.pos_at_byte(2), Pos::new(0, 1));
    assert_eq!(b.pos_at_byte(99), Pos::new(2, 2));
    assert_eq!(b.byte_offset(Pos::new(9, 9)), 10);
}

#[test]
fn slices_keep_to_the_text() {
    let b = Buffer::from_str("ab\ncd");
    assert_eq!(b.slice(Pos::new(0, 1)..Pos::new(1, 1)), "b\nc");
    assert_eq!(b.slice(Pos::new(0, 1)..Pos::new(9, 1)), "b\ncd\n");
    assert_eq!(b.slice(Pos::new(1, 1)..Pos::new(0, 1)), "");
    assert_eq!(b.slice(Pos::new(5, 1)..Pos::new(6, 1)), "");
    assert_eq!(b.slice(Pos::new(0, 1)..Pos::new(0, 99)), "b");
}

#[test]
fn a_paragraph_motion_stops_at_the_first_blank_row() {
    let mut b = with_cursor("a\n\nb", 2, 0);
    move_paragraph_prev(&mut b, 1);
    assert_eq!(Cursor::cursor(&b), Pos::new(1, 0));
    let mut b = with_cursor("a\n\nb", 0, 0);
    move_paragraph_next(&mut b, 1);
    assert_eq!(Cursor::cursor(&b), Pos::new(1, 0));
    // From a blank row the motion leaves the blank rows first.
    let mut b = with_cursor("a\n\n\nb\n\nc", 1, 0);
    move_paragraph_next(&mut b, 1);
    assert_eq!(Cursor::cursor(&b), Pos::new(4, 0));
}

#[test]
fn word_motions_cross_rows() {
    let words = "@,48-57,_,192-255";
    let mut b = with_cursor("\nfoo", 0, 0);
    move_word_fwd(&mut b, false, 1, words);
    assert_eq!(Cursor::cursor(&b), Pos::new(1, 0));
    let mut b = with_cursor("abc\ndef", 1, 2);
    move_word_back(&mut b, false, 1, words);
    assert_eq!(Cursor::cursor(&b), Pos::new(1, 0));
    move_word_back(&mut b, false, 1, words);
    assert_eq!(Cursor::cursor(&b), Pos::new(0, 0));
    let mut b = with_cursor("abc\ndef", 0, 0);
    move_word_end(&mut b, false, 1, words);
    assert_eq!(Cursor::cursor(&b), Pos::new(0, 2));
    move_word_end(&mut b, false, 1, words);
    assert_eq!(Cursor::cursor(&b), Pos::new(1, 2));
    move_word_end_back(&mut b, false, 1, words);
    assert_eq!(Cursor::cursor(&b), Pos::new(0, 2));
}

#[test]
fn an_empty_row_is_a_word_for_w() {
    let words = "@,48-57,_,192-255";
    for big in [false, true] {
        let mut b = with_cursor("a\n\nb", 0, 0);
        move_word_fwd(&mut b, big, 1, words);
        assert_eq!(Cursor::cursor(&b), Pos::new(1, 0));
        move_word_fwd(&mut b, big, 1, words);
        assert_eq!(Cursor::cursor(&b), Pos::new(2, 0));
        // A row of blanks is none.
        let mut b = with_cursor("a  \n  \n\n  b", 0, 0);
        move_word_fwd(&mut b, big, 1, words);
        assert_eq!(Cursor::cursor(&b), Pos::new(2, 0));
        move_word_fwd(&mut b, big, 1, words);
        assert_eq!(Cursor::cursor(&b), Pos::new(3, 2));
        // Behind the last word comes the end of the text.
        move_word_fwd(&mut b, big, 1, words);
        assert_eq!(Cursor::cursor(&b), Pos::new(3, 3));
    }
}

#[test]
fn word_motions_leave_empty_rows() {
    let words = "@,48-57,_,192-255";
    for big in [false, true] {
        let mut b = with_cursor("foo\n\nbar", 2, 0);
        move_word_back(&mut b, big, 1, words);
        assert_eq!(Cursor::cursor(&b), Pos::new(0, 0));
        Cursor::set_cursor(&mut b, Pos::new(0, 2));
        move_word_end(&mut b, big, 1, words);
        assert_eq!(Cursor::cursor(&b), Pos::new(2, 2));
        move_word_end_back(&mut b, big, 1, words);
        assert_eq!(Cursor::cursor(&b), Pos::new(0, 2));
    }
}

#[test]
fn word_motions_lead_to_the_nearest_word() {
    let words = "@,48-57,_,192-255";
    let text = "if (a+b) {";
    let mut b = with_cursor(text, 0, 0);
    let mut cols = Vec::new();
    for _ in 0..7 {
        move_word_fwd(&mut b, false, 1, words);
        cols.push(Cursor::cursor(&b).col);
    }
    assert_eq!(cols, vec![3, 4, 5, 6, 7, 9, 10]);
    let mut b = with_cursor(text, 0, 9);
    let mut cols = Vec::new();
    for _ in 0..6 {
        move_word_back(&mut b, false, 1, words);
        cols.push(Cursor::cursor(&b).col);
    }
    assert_eq!(cols, vec![7, 6, 5, 4, 3, 0]);
    let mut b = with_cursor(text, 0, 0);
    move_word_end(&mut b, true, 2, words);
    assert_eq!(Cursor::cursor(&b), Pos::new(0, 7));
    move_word_end_back(&mut b, true, 1, words);
    assert_eq!(Cursor::cursor(&b), Pos::new(0, 1));
}

#[test]
fn slices_of_adjoining_ranges_join() {
    let b = Buffer::from_str("a\u{e9}c\n\n\u{6f22}x\nlast");
    let places = [(0, 0), (0, 2), (0, 3), (1, 0), (2, 1), (2, 2), (3, 4)];
    let pos = |i: usize| Pos::new(places[i].0, places[i].1);
    for i in 0..places.len() {
        for j in i..places.len() {
            let left = b.slice(pos(i)..pos(j));
            assert_eq!(left.len(), b.byte_offset(pos(j)) - b.byte_offset(pos(i)));
            for k in j..places.len() {
                let right = b.slice(pos(j)..pos(k));
                assert_eq!(b.slice(pos(i)..pos(k)), format!("{left}{right}"));
            }
        }
    }
}
