//! Soft wrap, the viewport over wrapped rows, and folds.
use hjkl_buffer::Buffer;
use hjkl_engine::buffer::{Viewport, Wrap};
use hjkl_engine::folds::{
    BufferFoldProvider, FoldOp, FoldProvider, NoopFoldProvider, SnapshotFoldProvider,
};
use hjkl_engine::motions::{can_wrap, move_down, move_screen_down};
use hjkl_engine::rope::line_wraps;
use hjkl_engine::viewport_math::{cursor_screen_row, ensure_cursor_visible, max_top_for_height};
use hjkl_engine::{Cursor, DefaultHost, Editor, Host, Options, Pos};

fn view(top_row: usize, height: u16, wrap: Wrap, text_width: u16) -> Viewport {
    Viewport { top_row, top_col: 0, width: 80, height, wrap, text_width, tab_width: 0 }
}

fn with_cursor(text: &str, line: u32, col: u32) -> Buffer {
    let mut b = Buffer::from_str(text);
    Cursor::set_cursor(&mut b, Pos::new(line, col));
    b
}

fn screen_row(b: &Buffer, v: &Viewport) -> Option<usize> {
    cursor_screen_row(b, &BufferFoldProvider::new(b), v)
}

#[test]
fn the_screen_row_counts_wrapped_rows() {
    let v = view(0, 10, Wrap::Char, 3);
    assert_eq!(screen_row(&with_cursor("abcdefgh\nxy", 0, 2), &v), Some(0));
    assert_eq!(screen_row(&with_cursor("abcdefgh\nxy", 0, 4), &v), Some(1));
    assert_eq!(screen_row(&with_cursor("abcdefgh\nxy", 0, 8), &v), Some(2));
    assert_eq!(screen_row(&with_cursor("abcdefgh\nxy", 1, 0), &v), Some(3));
}

#[test]
fn there_is_no_screen_row_without_soft_wrap() {
    let b = with_cursor("abcdefgh\nxy", 1, 0);
    assert_eq!(screen_row(&b, &view(0, 10, Wrap::Off, 3)), None);
    assert_eq!(screen_row(&b, &view(0, 10, Wrap::Char, 0)), None);
}

#[test]
fn there_is_no_screen_row_above_the_viewport_and_inside_a_fold() {
    let b = with_cursor("a\nb\nc", 0, 0);
    assert_eq!(screen_row(&b, &view(1, 10, Wrap::Char, 3)), None);
    let mut b = with_cursor("a\nb\nc", 1, 0);
    b.add_fold(0, 1, true);
    assert_eq!(screen_row(&b, &view(0, 10, Wrap::Char, 3)), None);
    Cursor::set_cursor(&mut b, Pos::new(2, 0));
    assert_eq!(screen_row(&b, &view(0, 10, Wrap::Char, 3)), Some(1));
}

#[test]
fn word_wrap_breaks_after_a_blank() {
    let b = with_cursor("ab cd ef", 0, 3);
    assert_eq!(screen_row(&b, &view(0, 10, Wrap::Word, 5)), Some(1));
    assert_eq!(screen_row(&b, &view(0, 10, Wrap::Char, 5)), Some(0));
    let b = with_cursor("abcdefgh", 0, 5);
    assert_eq!(screen_row(&b, &view(0, 10, Wrap::Word, 5)), Some(1));
}

#[test]
fn wide_characters_take_two_cells() {
    let b = with_cursor("\u{6f22}\u{5b57}\u{6f22}", 0, 2);
    assert_eq!(screen_row(&b, &view(0, 10, Wrap::Char, 4)), Some(1));
    assert_eq!(screen_row(&b, &view(0, 10, Wrap::Char, 2)), Some(2));
}

#[test]
fn narrow_characters_wrap_on_one_column() {
    let b = with_cursor("\u{e9}\u{3b1}b", 0, 2);
    assert_eq!(screen_row(&b, &view(0, 10, Wrap::Char, 1)), Some(2));
}

#[test]
fn the_last_full_screen() {
    let b = Buffer::from_str("a\nb\nc\nd");
    let f = NoopFoldProvider;
    let off = view(0, 10, Wrap::Off, 80);
    assert_eq!(max_top_for_height(&b, &f, &off, 2), 2);
    assert_eq!(max_top_for_height(&b, &f, &off, 10), 0);
    assert_eq!(max_top_for_height(&b, &f, &off, 0), 0);
    let b = Buffer::from_str("abcdef\nx");
    let on = view(0, 10, Wrap::Char, 3);
    assert_eq!(max_top_for_height(&b, &f, &on, 1), 1);
    assert_eq!(max_top_for_height(&b, &f, &on, 2), 0);
}

#[test]
fn hidden_rows_do_not_fill_the_screen() {
    let mut b = Buffer::from_str("a\nb\nc\nd");
    b.add_fold(1, 3, true);
    let v = view(0, 10, Wrap::Off, 80);
    let f = SnapshotFoldProvider::from_buffer(&b);
    assert_eq!(max_top_for_height(&b, &f, &v, 1), 1);
    assert_eq!(max_top_for_height(&b, &f, &v, 2), 0);
}

#[test]
fn the_viewport_moves_no_further_than_needed() {
    let text = (0..30).map(|i| i.to_string()).collect::<Vec<_>>().join("\n");
    let f = NoopFoldProvider;
    let mut v = view(0, 5, Wrap::Off, 80);
    ensure_cursor_visible(&with_cursor(&text, 10, 0), &f, &mut v);
    assert_eq!(v.top_row, 6);
    ensure_cursor_visible(&with_cursor(&text, 8, 0), &f, &mut v);
    assert_eq!(v.top_row, 6);
    ensure_cursor_visible(&with_cursor(&text, 3, 0), &f, &mut v);
    assert_eq!(v.top_row, 3);
}

#[test]
fn the_viewport_moves_over_wrapped_rows() {
    let f = NoopFoldProvider;
    let mut v = view(0, 3, Wrap::Char, 3);
    v.top_col = 7;
    ensure_cursor_visible(&with_cursor("abcdef\nabcdef\nabcdef", 2, 0), &f, &mut v);
    assert_eq!((v.top_row, v.top_col), (1, 0));
    ensure_cursor_visible(&with_cursor("abcdef\nabcdef\nabcdef", 2, 0), &f, &mut v);
    assert_eq!((v.top_row, v.top_col), (1, 0));
    ensure_cursor_visible(&with_cursor("abcdef\nabcdef\nabcdef", 0, 5), &f, &mut v);
    assert_eq!((v.top_row, v.top_col), (0, 0));
}

#[test]
fn a_viewport_without_a_size_stays() {
    let f = NoopFoldProvider;
    let mut v = view(0, 0, Wrap::Char, 3);
    ensure_cursor_visible(&with_cursor("a\nb\nc", 2, 0), &f, &mut v);
    assert_eq!(v.top_row, 0);
    let mut v = Viewport::new();
    ensure_cursor_visible(&with_cursor("a\nb\nc", 2, 0), &f, &mut v);
    assert_eq!(v, Viewport::new());
}

#[test]
fn screen_motions_break_after_blanks() {
    let mut b = with_cursor("ab cd ef", 0, 1);
    let mut sticky = None;
    let v = view(0, 10, Wrap::Word, 5);
    move_screen_down(&mut b, &NoopFoldProvider, &v, 1, &mut sticky);
    assert_eq!(Cursor::cursor(&b), Pos::new(0, 4));
    assert_eq!(sticky, Some(4));
}

#[test]
fn a_short_row_does_not_pull_the_column_in() {
    let text = "abcdef\nx\nabcdef";
    let f = NoopFoldProvider;
    let mut twice = with_cursor(text, 0, 4);
    let mut sticky = None;
    move_down(&mut twice, &f, 1, &mut sticky);
    assert_eq!(Cursor::cursor(&twice), Pos::new(1, 0));
    move_down(&mut twice, &f, 1, &mut sticky);
    let mut once = with_cursor(text, 0, 4);
    move_down(&mut once, &f, 2, &mut None);
    assert_eq!(Cursor::cursor(&twice), Cursor::cursor(&once));
    assert_eq!(Cursor::cursor(&once), Pos::new(2, 4));
}

// ── Folds ────────────────────────────────────────────────────────────

#[test]
fn a_copy_of_the_folds_answers_like_the_buffer() {
    let mut b = Buffer::from_str("a\nb\nc\nd\ne");
    b.add_fold(1, 3, true);
    let copy = SnapshotFoldProvider::from_buffer(&b);
    let live = BufferFoldProvider::new(&b);
    for row in 0..7 {
        assert_eq!(copy.next_visible_row(row, 5), live.next_visible_row(row, 5));
        assert_eq!(copy.prev_visible_row(row), live.prev_visible_row(row));
        assert_eq!(copy.is_row_hidden(row), live.is_row_hidden(row));
        assert_eq!(copy.fold_at_row(row), live.fold_at_row(row));
    }
    assert_eq!(copy.next_visible_row(1, 5), Some(4));
    assert_eq!(copy.prev_visible_row(4), Some(1));
    assert!(!copy.is_row_hidden(1) && copy.is_row_hidden(2));
    assert_eq!(copy.fold_at_row(3), Some((1, 3, true)));
    assert_eq!(copy.fold_at_row(4), None);
}

#[test]
fn a_copy_of_the_folds_does_not_change() {
    let mut b = Buffer::from_str("a\nb\nc");
    b.add_fold(0, 1, true);
    let mut copy = SnapshotFoldProvider::from_buffer(&b);
    copy.apply(FoldOp::ClearAll);
    copy.invalidate_range(0, 2);
    assert_eq!(copy.fold_at_row(0), Some((0, 1, true)));
}

#[test]
fn lines_that_can_be_wrapped() {
    assert!(line_wraps("abc", 1, Wrap::Char));
    // No width leaves the line in one piece.
    assert!(line_wraps("abc", 0, Wrap::Char));
    // A wide character takes more than one cell.
    assert!(!line_wraps("a\u{6f22}", 1, Wrap::Char));
    assert!(line_wraps("a\u{6f22}", 3, Wrap::Word));
    // A short line is wrapped at any width, a long one not at the greatest.
    assert!(line_wraps("abc", u16::MAX, Wrap::Char));
    assert!(!line_wraps(&"a".repeat(70_000), u16::MAX, Wrap::Char));
    assert!(line_wraps(&"a".repeat(70_000), u16::MAX - 1, Wrap::Char));
    let b = Buffer::from_str("ab\n\u{6f22}");
    assert!(!can_wrap(&b, &view(0, 5, Wrap::Char, 1)));
    assert!(can_wrap(&b, &view(0, 5, Wrap::Char, 3)));
    assert!(can_wrap(&b, &view(0, 5, Wrap::Off, 0)));
}

fn wrapped_editor(text: &str, top_row: usize, height: u16) -> Editor<Buffer, DefaultHost> {
    let mut e = Editor::new(Buffer::from_str(text), DefaultHost::new(), Options::default());
    *e.host_mut().viewport_mut() = view(top_row, height, Wrap::Char, 4);
    e.set_viewport_height(height);
    e
}

fn wrapped_top(e: &Editor<Buffer, DefaultHost>) -> usize {
    e.host().viewport().top_row
}

#[test]
fn the_margin_is_kept_under_soft_wrap() {
    // Forty rows of two screen rows each, on a screen of twenty.
    let text = vec!["abcdefg"; 40].join("\n");
    let mut e = wrapped_editor(&text, 0, 20);
    e.jump_cursor(12, 0);
    e.ensure_cursor_in_scrolloff();
    // Screen row 14 is the last one above the margin.
    assert_eq!(wrapped_top(&e), 5);
    assert_eq!(screen_row(e.buffer(), e.host().viewport()), Some(14));
    e.jump_cursor(6, 0);
    e.ensure_cursor_in_scrolloff();
    assert_eq!(wrapped_top(&e), 3);
    assert_eq!(screen_row(e.buffer(), e.host().viewport()), Some(6));
    // At the end no blank rows follow the text.
    e.jump_cursor(39, 0);
    e.ensure_cursor_in_scrolloff();
    assert_eq!(wrapped_top(&e), 30);
    assert_eq!(screen_row(e.buffer(), e.host().viewport()), Some(18));
    e.jump_cursor(0, 0);
    e.ensure_cursor_in_scrolloff();
    assert_eq!(wrapped_top(&e), 0);
}

#[test]
fn a_tall_row_does_not_push_the_cursor_off_the_screen() {
    // Row 0 takes twenty screen rows on a screen of ten.
    let text = format!("{}\nx\ny", "a".repeat(80));
    let mut e = wrapped_editor(&text, 0, 10);
    e.jump_cursor(1, 0);
    e.ensure_cursor_in_scrolloff();
    assert_eq!(wrapped_top(&e), 1);
    assert_eq!(screen_row(e.buffer(), e.host().viewport()), Some(0));
    // A row taller than the screen starts at its top.
    e.jump_cursor(0, 70);
    e.ensure_cursor_in_scrolloff();
    assert_eq!(wrapped_top(&e), 0);
}

#[test]
fn a_hidden_cursor_leaves_the_viewport_where_it_is() {
    let text = vec!["abcdefg"; 40].join("\n");
    let mut e = wrapped_editor(&text, 10, 20);
    e.apply_fold_op(FoldOp::Add { start_row: 12, end_row: 14, closed: true });
    e.jump_cursor(13, 0);
    e.ensure_cursor_in_scrolloff();
    assert_eq!(wrapped_top(&e), 10);
}

#[test]
fn without_a_text_width_rows_are_not_wrapped() {
    let text = vec!["abcdefg"; 40].join("\n");
    let mut e = wrapped_editor(&text, 0, 20);
    e.host_mut().viewport_mut().text_width = 0;
    e.jump_cursor(30, 0);
    e.ensure_cursor_in_scrolloff();
    assert_eq!(wrapped_top(&e), 16);
}
