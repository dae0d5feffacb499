//! Motions on the rope buffer and on a store of a test's own.
use std::borrow::Cow;

use hjkl_buffer::{Buffer, Position};
use hjkl_engine::buffer::{Viewport, Wrap};
use hjkl_engine::folds::SnapshotFoldProvider;
use hjkl_engine::motions::{
    find_char_on_line, match_bracket, move_bottom, move_down, move_first_non_blank,
    move_last_non_blank, move_left, move_line_end, move_line_start, move_paragraph_next,
    move_paragraph_prev, move_right_in_line, move_right_to_end, move_screen_down, move_screen_up,
    move_top, move_up, move_viewport_bottom, move_viewport_middle, move_viewport_top,
    move_word_back, move_word_end, move_word_end_back, move_word_fwd,
};
use hjkl_engine::{Cursor, Pos, Query};

/// The `iskeyword` list that vim starts with.
const ISK: &str = "@,48-57,_,192-255";

fn at(b: &Buffer) -> Position {
    b.cursor()
}

fn folds(b: &Buffer) -> SnapshotFoldProvider {
    SnapshotFoldProvider::from_buffer(b)
}

#[test]
fn move_left_clamps_at_zero() {
    let mut b = Buffer::from_str("abcd");
    move_right_in_line(&mut b, 3);
    assert_eq!(at(&b), Position::new(0, 3));
    move_left(&mut b, 10);
    assert_eq!(at(&b), Position::new(0, 0));
}

#[test]
fn move_left_does_not_wrap_to_prev_row() {
    let mut b = Buffer::from_str("abc\ndef");
    let mut sticky = None;
    {
        let f = folds(&b);
        move_down(&mut b, &f, 1, &mut sticky);
    }
    assert_eq!(at(&b).row, 1);
    move_left(&mut b, 99);
    assert_eq!(at(&b), Position::new(1, 0));
}

#[test]
fn move_right_in_line_stops_at_last_char() {
    let mut b = Buffer::from_str("abcd");
    move_right_in_line(&mut b, 99);
    assert_eq!(at(&b), Position::new(0, 3));
}

#[test]
fn move_right_to_end_allows_one_past() {
    let mut b = Buffer::from_str("abcd");
    move_right_to_end(&mut b, 99);
    assert_eq!(at(&b), Position::new(0, 4));
}

#[test]
fn move_line_start_end() {
    let mut b = Buffer::from_str("  hello");
    move_line_end(&mut b);
    assert_eq!(at(&b), Position::new(0, 6));
    move_line_start(&mut b);
    assert_eq!(at(&b), Position::new(0, 0));
    move_first_non_blank(&mut b);
    assert_eq!(at(&b), Position::new(0, 2));
}

#[test]
fn move_line_end_on_empty_row_stays_at_zero() {
    let mut b = Buffer::from_str("");
    move_line_end(&mut b);
    assert_eq!(at(&b), Position::new(0, 0));
}

#[test]
fn move_down_preserves_sticky_col_across_short_row() {
    let mut b = Buffer::from_str("hello world\nhi\nlong line again");
    move_right_in_line(&mut b, 7);
    assert_eq!(at(&b), Position::new(0, 7));
    let mut sticky = None;
    {
        let f = folds(&b);
        move_down(&mut b, &f, 1, &mut sticky);
    }
    assert_eq!(at(&b).row, 1);
    // Short row clamps to col 1 (last char of "hi").
    assert_eq!(at(&b).col, 1);
    {
        let f = folds(&b);
        move_down(&mut b, &f, 1, &mut sticky);
    }
    // Sticky col 7 restored on the longer row.
    assert_eq!(at(&b), Position::new(2, 7));
}

#[test]
fn move_down_skips_closed_fold() {
    let mut b = Buffer::from_str("a\nb\nc\nd\ne");
    b.add_fold(1, 3, true);
    let mut sticky = None;
    // From row 0, `j` should land on row 4 — the fold collapses
    // rows 1..=3 into a single visual line at row 1.
    {
        let f = folds(&b);
        move_down(&mut b, &f, 1, &mut sticky);
    }
    assert_eq!(at(&b).row, 1);
    {
        let f = folds(&b);
        move_down(&mut b, &f, 1, &mut sticky);
    }
    assert_eq!(at(&b).row, 4);
}

#[test]
fn move_up_skips_closed_fold() {
    let mut b = Buffer::from_str("a\nb\nc\nd\ne");
    b.add_fold(1, 3, true);
    b.set_cursor(Position::new(4, 0));
    let mut sticky = None;
    {
        let f = folds(&b);
        move_up(&mut b, &f, 1, &mut sticky);
    }
    assert_eq!(at(&b).row, 1);
    {
        let f = folds(&b);
        move_up(&mut b, &f, 1, &mut sticky);
    }
    assert_eq!(at(&b).row, 0);
}

#[test]
fn open_fold_is_walked_normally() {
    let mut b = Buffer::from_str("a\nb\nc\nd\ne");
    b.add_fold(1, 3, false);
    let mut sticky = None;
    // Open fold: every row is visible, plain row-by-row stepping.
    {
        let f = folds(&b);
        move_down(&mut b, &f, 2, &mut sticky);
    }
    assert_eq!(at(&b).row, 2);
}

#[test]
fn move_top_lands_on_first_non_blank() {
    let mut b = Buffer::from_str("    indented\nrow2");
    let mut sticky = None;
    {
        let f = folds(&b);
        move_down(&mut b, &f, 1, &mut sticky);
    }
    move_top(&mut b);
    assert_eq!(at(&b), Position::new(0, 4));
}

#[test]
fn move_bottom_with_count_jumps_to_line() {
    let mut b = Buffer::from_str("a\n  b\nc\nd");
    move_bottom(&mut b, 2);
    assert_eq!(at(&b), Position::new(1, 2));
}

#[test]
fn move_bottom_zero_jumps_to_last_row() {
    let mut b = Buffer::from_str("a\nb\nc");
    move_bottom(&mut b, 0);
    assert_eq!(at(&b), Position::new(2, 0));
}

#[test]
fn move_word_fwd_skips_whitespace_runs() {
    let mut b = Buffer::from_str("foo bar  baz");
    move_word_fwd(&mut b, false, 1, ISK);
    assert_eq!(at(&b), Position::new(0, 4));
    move_word_fwd(&mut b, false, 1, ISK);
    assert_eq!(at(&b), Position::new(0, 9));
}

#[test]
fn move_word_fwd_separates_word_from_punct_in_small_w() {
    let mut b = Buffer::from_str("foo.bar");
    move_word_fwd(&mut b, false, 1, ISK);
    assert_eq!(at(&b), Position::new(0, 3));
    move_word_fwd(&mut b, false, 1, ISK);
    assert_eq!(at(&b), Position::new(0, 4));
}

#[test]
fn move_word_fwd_big_collapses_word_and_punct() {
    let mut b = Buffer::from_str("foo.bar baz");
    move_word_fwd(&mut b, true, 1, ISK);
    assert_eq!(at(&b), Position::new(0, 8));
}

#[test]
fn move_word_back_lands_on_word_start() {
    let mut b = Buffer::from_str("foo bar baz");
    move_line_end(&mut b);
    assert_eq!(at(&b), Position::new(0, 10));
    move_word_back(&mut b, false, 1, ISK);
    assert_eq!(at(&b), Position::new(0, 8));
    move_word_back(&mut b, false, 2, ISK);
    assert_eq!(at(&b), Position::new(0, 0));
}

#[test]
fn move_word_end_lands_on_last_char() {
    let mut b = Buffer::from_str("foo bar");
    move_word_end(&mut b, false, 1, ISK);
    assert_eq!(at(&b), Position::new(0, 2));
    move_word_end(&mut b, false, 1, ISK);
    assert_eq!(at(&b), Position::new(0, 6));
}

#[test]
fn find_char_forward_lands_on_match() {
    let mut b = Buffer::from_str("foo,bar,baz");
    assert!(find_char_on_line(&mut b, ',', true, false));
    assert_eq!(at(&b), Position::new(0, 3));
    assert!(find_char_on_line(&mut b, ',', true, false));
    assert_eq!(at(&b), Position::new(0, 7));
}

#[test]
fn find_char_till_stops_one_short() {
    let mut b = Buffer::from_str("foo,bar");
    assert!(find_char_on_line(&mut b, ',', true, true));
    assert_eq!(at(&b), Position::new(0, 2));
}

#[test]
fn find_char_backward_lands_on_match() {
    let mut b = Buffer::from_str("foo,bar,baz");
    b.set_cursor(Position::new(0, 10));
    assert!(find_char_on_line(&mut b, ',', false, false));
    assert_eq!(at(&b), Position::new(0, 7));
}

#[test]
fn find_char_no_match_returns_false() {
    let mut b = Buffer::from_str("hello");
    assert!(!find_char_on_line(&mut b, 'z', true, false));
    assert_eq!(at(&b), Position::new(0, 0));
}

#[test]
fn move_viewport_top_with_offset() {
    let mut b = Buffer::from_str("a\nb\nc\nd\ne\nf");
    let v = Viewport {
        top_row: 1,
        height: 4,
        ..Default::default()
    };
    move_viewport_top(&mut b, &v, 2);
    assert_eq!(at(&b), Position::new(3, 0));
}

#[test]
fn move_viewport_middle_picks_center_of_visible() {
    let mut b = Buffer::from_str("a\nb\nc\nd\ne");
    let v = Viewport {
        top_row: 0,
        height: 5,
        ..Default::default()
    };
    move_viewport_middle(&mut b, &v);
    assert_eq!(at(&b), Position::new(2, 0));
}

#[test]
fn move_viewport_bottom_with_offset() {
    let mut b = Buffer::from_str("a\nb\nc\nd\ne");
    let v = Viewport {
        top_row: 0,
        height: 5,
        ..Default::default()
    };
    move_viewport_bottom(&mut b, &v, 1);
    assert_eq!(at(&b), Position::new(3, 0));
}

#[test]
fn move_word_end_back_lands_on_prev_word_end() {
    let mut b = Buffer::from_str("foo bar baz");
    b.set_cursor(Position::new(0, 9));
    move_word_end_back(&mut b, false, 1, ISK);
    assert_eq!(at(&b), Position::new(0, 6));
    move_word_end_back(&mut b, false, 1, ISK);
    assert_eq!(at(&b), Position::new(0, 2));
}

#[test]
fn move_word_end_back_big_skips_punct() {
    let mut b = Buffer::from_str("foo-bar qux");
    b.set_cursor(Position::new(0, 10));
    move_word_end_back(&mut b, true, 1, ISK);
    assert_eq!(at(&b), Position::new(0, 6));
}

#[test]
fn move_word_end_back_crosses_lines() {
    let mut b = Buffer::from_str("abc\ndef");
    b.set_cursor(Position::new(1, 2));
    move_word_end_back(&mut b, false, 1, ISK);
    assert_eq!(at(&b), Position::new(0, 2));
}

#[test]
fn match_bracket_pairs_within_line() {
    let mut b = Buffer::from_str("if (x + y) {");
    b.set_cursor(Position::new(0, 3));
    assert!(match_bracket(&mut b));
    assert_eq!(at(&b), Position::new(0, 9));
    assert!(match_bracket(&mut b));
    assert_eq!(at(&b), Position::new(0, 3));
}

#[test]
fn match_bracket_handles_nesting() {
    let mut b = Buffer::from_str("((x))");
    b.set_cursor(Position::new(0, 0));
    assert!(match_bracket(&mut b));
    assert_eq!(at(&b), Position::new(0, 4));
}

#[test]
fn match_bracket_crosses_lines() {
    let mut b = Buffer::from_str("{\n  x\n}");
    b.set_cursor(Position::new(0, 0));
    assert!(match_bracket(&mut b));
    assert_eq!(at(&b), Position::new(2, 0));
}

#[test]
fn match_bracket_returns_false_off_bracket() {
    let mut b = Buffer::from_str("hello");
    assert!(!match_bracket(&mut b));
}

#[test]
fn motion_count_zero_treated_as_one() {
    let mut b = Buffer::from_str("abcd");
    move_right_in_line(&mut b, 0);
    assert_eq!(at(&b), Position::new(0, 1));
}

fn make_wrap_viewport(mode: Wrap, text_width: u16) -> Viewport {
    Viewport {
        top_row: 0,
        top_col: 0,
        width: text_width,
        height: 10,
        wrap: mode,
        text_width,
        tab_width: 0,
    }
}

#[test]
fn screen_down_falls_back_to_move_down_when_wrap_off() {
    let mut b = Buffer::from_str("a\nb\nc");
    let v = Viewport::default();
    let mut sticky = None;
    {
        let f = folds(&b);
        move_screen_down(&mut b, &f, &v, 1, &mut sticky);
    }
    assert_eq!(at(&b), Position::new(1, 0));
    {
        let f = folds(&b);
        move_screen_down(&mut b, &f, &v, 1, &mut sticky);
    }
    assert_eq!(at(&b), Position::new(2, 0));
}

#[test]
fn screen_down_walks_within_wrapped_row() {
    // 12-char line, width 4 → segments (0,4), (4,8), (8,12).
    let mut b = Buffer::from_str("aaaabbbbcccc\nx");
    let v = make_wrap_viewport(Wrap::Char, 4);
    b.set_cursor(Position::new(0, 1));
    let mut sticky = None;
    {
        let f = folds(&b);
        move_screen_down(&mut b, &f, &v, 1, &mut sticky);
    }
    // visual_col = 1 → next segment starts at 4 → land col 5.
    assert_eq!(at(&b), Position::new(0, 5));
    {
        let f = folds(&b);
        move_screen_down(&mut b, &f, &v, 1, &mut sticky);
    }
    assert_eq!(at(&b), Position::new(0, 9));
    // Past the last segment crosses to the next doc row.
    {
        let f = folds(&b);
        move_screen_down(&mut b, &f, &v, 1, &mut sticky);
    }
    assert_eq!(at(&b), Position::new(1, 0));
}

#[test]
fn screen_up_walks_within_wrapped_row() {
    let mut b = Buffer::from_str("aaaabbbbcccc");
    let v = make_wrap_viewport(Wrap::Char, 4);
    b.set_cursor(Position::new(0, 9));
    let mut sticky = None;
    {
        let f = folds(&b);
        move_screen_up(&mut b, &f, &v, 1, &mut sticky);
    }
    // visual_col = 9 - 8 = 1 → previous segment col = 4 + 1 = 5.
    assert_eq!(at(&b), Position::new(0, 5));
    {
        let f = folds(&b);
        move_screen_up(&mut b, &f, &v, 1, &mut sticky);
    }
    assert_eq!(at(&b), Position::new(0, 1));
    // Already on first segment of first row — no further move.
    {
        let f = folds(&b);
        move_screen_up(&mut b, &f, &v, 1, &mut sticky);
    }
    assert_eq!(at(&b), Position::new(0, 1));
}

#[test]
fn screen_down_clamps_to_short_segment() {
    // First row wraps into a 6-char then a 2-char segment; second
    // row is only 1 char. Visual col 4 should clamp to row 1's
    // last col (0) when crossing into the short row.
    let mut b = Buffer::from_str("aaaaaabb\nx");
    let v = make_wrap_viewport(Wrap::Char, 6);
    b.set_cursor(Position::new(0, 4));
    let mut sticky = None;
    {
        let f = folds(&b);
        move_screen_down(&mut b, &f, &v, 1, &mut sticky);
    }
    // visual_col = 4 → segment 1 is (6, 8); want=10 clamps to 7.
    assert_eq!(at(&b), Position::new(0, 7));
    {
        let f = folds(&b);
        move_screen_down(&mut b, &f, &v, 1, &mut sticky);
    }
    // crosses into row 1, segment (0, 1) — clamps to col 0.
    assert_eq!(at(&b), Position::new(1, 0));
}

#[test]
fn screen_down_count_compounds() {
    let mut b = Buffer::from_str("aaaabbbbcccc");
    let v = make_wrap_viewport(Wrap::Char, 4);
    b.set_cursor(Position::new(0, 0));
    let mut sticky = None;
    {
        let f = folds(&b);
        move_screen_down(&mut b, &f, &v, 2, &mut sticky);
    }
    assert_eq!(at(&b), Position::new(0, 8));
}

#[test]
fn motions_module_compiles_against_concrete_buffer() {
    let mut b = Buffer::from_str("hello");
    move_right_in_line(&mut b, 1);
    assert_eq!(b.cursor(), Position::new(0, 1));
}

/// A store other than the rope buffer drives the motions.
#[test]
fn motions_drive_non_canonical_cursor_query_impl() {
    struct MockBuf {
        lines: Vec<String>,
        cursor: Pos,
    }

    impl Cursor for MockBuf {
        fn cursor(&self) -> Pos {
            self.cursor
        }

        fn set_cursor(&mut self, pos: Pos) {
            self.cursor = pos;
        }

        fn byte_offset(&self, _pos: Pos) -> usize {
            0
        }

        fn pos_at_byte(&self, _byte: usize) -> Pos {
            Pos::origin()
        }
    }

    impl Query for MockBuf {
        fn line_count(&self) -> u32 {
            self.lines.len() as u32
        }

        fn line(&self, idx: u32) -> &str {
            &self.lines[idx as usize]
        }

        fn len_bytes(&self) -> usize {
            self.lines
                .iter()
                .map(|l| l.len() + 1)
                .sum::<usize>()
                .saturating_sub(1)
        }

        fn slice(&self, _range: core::ops::Range<Pos>) -> Cow<'_, str> {
            Cow::Borrowed("")
        }
    }

    let mut m = MockBuf {
        lines: vec!["foo bar".into(), "baz qux".into()],
        cursor: Pos::origin(),
    };

    // h/l/0/$
    move_right_in_line(&mut m, 2);
    assert_eq!(m.cursor, Pos::new(0, 2));
    move_left(&mut m, 1);
    assert_eq!(m.cursor, Pos::new(0, 1));
    move_line_end(&mut m);
    assert_eq!(m.cursor, Pos::new(0, 6));
    move_line_start(&mut m);
    assert_eq!(m.cursor, Pos::new(0, 0));

    // Word motion via the non-canonical buffer.
    move_word_fwd(&mut m, false, 1, ISK);
    assert_eq!(m.cursor, Pos::new(0, 4));

    // gg / G via the non-canonical buffer.
    move_bottom(&mut m, 0);
    assert_eq!(m.cursor.line, 1);
    move_top(&mut m);
    assert_eq!(m.cursor, Pos::new(0, 0));
}
