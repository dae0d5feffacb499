//! The editor: text, history, marks, registers, highlights, frames, snapshots,
//! scrolling and the mouse.
use std::sync::{Arc, Mutex};

use hjkl_buffer::Buffer;
use hjkl_engine::buffer::{Edit, MotionKind, Position, Selection, Viewport, Wrap};
use hjkl_engine::folds::{FoldOp, FoldProvider};
use hjkl_engine::input::TermKey;
use hjkl_engine::marks::Marks;
use hjkl_engine::scrolling::{CursorScrollTarget, Rect};
use hjkl_engine::state::SearchPrompt;
use hjkl_engine::style::{TermColor, TermModifiers, TermStyle};
use hjkl_engine::types::Duration;
use hjkl_engine::{
    Attrs, Color, CursorShape, DefaultHost, Editor, EditorSnapshot, EngineError, HighlightKind,
    Host, Input, Key, Modifiers, MouseEvent, MouseKind, Options, PlannedInput, Pos, SnapshotMode,
    SpecialKey, Style, VimMode, WrapMode,
};

fn editor() -> Editor<Buffer, DefaultHost> {
    Editor::new(Buffer::new(), DefaultHost::new(), Options::default())
}

fn editor_with(content: &str) -> Editor<Buffer, DefaultHost> {
    let mut e = editor();
    e.set_content(content);
    e
}

fn fresh_editor(initial: &str) -> Editor<Buffer, DefaultHost> {
    Editor::new(Buffer::from_str(initial), DefaultHost::new(), Options::default())
}

fn many_lines(n: usize) -> String {
    (0..n).map(|i| format!("line{i}")).collect::<Vec<_>>().join("\n")
}

fn insert_char(e: &mut Editor<Buffer, DefaultHost>, row: usize, col: usize, ch: char) {
    let _ = e.mutate_edit(Edit::InsertChar { at: Position::new(row, col), ch });
}

fn prompt(text: &str) -> SearchPrompt {
    SearchPrompt { text: text.to_string(), cursor: text.len(), forward: true }
}

// ── Construction and options ─────────────────────────────────────────

#[test]
fn with_options_constructs_from_spec_options() {
    let opts = Options {
        shiftwidth: 4,
        tabstop: 4,
        expandtab: true,
        iskeyword: "@,a-z".to_string(),
        wrap: WrapMode::Word,
        ..Options::default()
    };
    let e = Editor::new(Buffer::new(), DefaultHost::new(), opts);
    assert_eq!(e.settings().shiftwidth, 4);
    assert_eq!(e.settings().tabstop, 4);
    assert!(e.settings().expandtab);
    assert_eq!(e.settings().iskeyword, "@,a-z");
    assert_eq!(e.settings().wrap, Wrap::Word);
    assert_eq!(e.vim_mode(), VimMode::Normal);
}

#[test]
fn options_bridge_roundtrip() {
    let mut e = editor();
    let opts = e.current_options();
    assert_eq!(opts.shiftwidth, 8);
    assert_eq!(opts.tabstop, 8);

    let new_opts =
        Options { shiftwidth: 4, tabstop: 2, ignorecase: true, ..Options::default() };
    e.apply_options(&new_opts);

    let after = e.current_options();
    assert_eq!(after.shiftwidth, 4);
    assert_eq!(after.tabstop, 2);
    assert!(after.ignorecase);
}

#[test]
fn feed_input_mouse_paste_focus_resize_no_op() {
    let e = editor_with("abc");
    let mode_before = e.vim_mode();
    assert!(e
        .feed_input(&PlannedInput::Mouse(MouseEvent {
            kind: MouseKind::Press,
            pos: Pos::new(0, 0),
            mods: Default::default(),
        }))
        .is_none());
    assert_eq!(e.vim_mode(), mode_before);
    assert!(e.feed_input(&PlannedInput::Paste("xx".into())).is_none());
    assert!(e.feed_input(&PlannedInput::FocusGained).is_none());
    assert!(e.feed_input(&PlannedInput::FocusLost).is_none());
    assert!(e.feed_input(&PlannedInput::Resize(80, 24)).is_none());
}

#[test]
fn keys_reach_the_key_machine_as_events() {
    let e = editor();
    let ctrl = Modifiers { ctrl: true, ..Default::default() };
    assert_eq!(
        e.feed_input(&PlannedInput::Char('r', ctrl)),
        Some(Input { key: Key::Char('r'), ctrl: true, alt: false, shift: false })
    );
    assert_eq!(
        e.feed_input(&PlannedInput::Key(SpecialKey::BackTab, Modifiers::default())),
        Some(Input { key: Key::Tab, ctrl: false, alt: false, shift: true })
    );
    assert_eq!(
        e.feed_input(&PlannedInput::Key(SpecialKey::PageDown, Modifiers::default())),
        Some(Input { key: Key::PageDown, ctrl: false, alt: false, shift: false })
    );
    assert!(e.feed_input(&PlannedInput::Key(SpecialKey::F(3), Modifiers::default())).is_none());
    assert!(e.feed_input(&PlannedInput::Key(SpecialKey::Insert, Modifiers::default())).is_none());
    assert_eq!(
        e.handle_key(TermKey::Esc, false, true, false),
        Some(Input { key: Key::Esc, ctrl: false, alt: true, shift: false })
    );
    // A terminal's page keys have no meaning.
    assert!(e.handle_key(TermKey::PageUp, false, false, false).is_none());
    assert!(e.handle_key(TermKey::F(1), false, false, false).is_none());
}

// ── Styles and spans ─────────────────────────────────────────────────

#[test]
fn intern_style_dedups_engine_native_styles() {
    let mut e = editor();
    let s = Style { fg: Some(Color(255, 0, 0)), bg: None, attrs: Attrs::bold() };
    let id_a = e.intern_style(s);
    let id_b = e.intern_style(s);
    assert_eq!(id_a, id_b);
    let back = e.engine_style_at(id_a).expect("interned");
    assert_eq!(back, s);
}

#[test]
fn engine_style_at_out_of_range_returns_none() {
    let e = editor();
    assert!(e.engine_style_at(99).is_none());
}

#[test]
fn spans_are_cut_off_at_the_end_of_their_line() {
    let mut e = editor_with("h\u{e9}llo\nx");
    let red = Style { fg: Some(Color(255, 0, 0)), bg: None, attrs: Attrs::empty() };
    let bold = Style { fg: None, bg: None, attrs: Attrs::bold() };
    e.install_syntax_spans(vec![
        vec![(0, 2, red), (3, 99, bold), (6, 9, red)],
        vec![(0, 1, red), (1, 1, bold)],
        vec![(0, 4, red)],
    ]);
    let spans = e.buffer_spans();
    assert_eq!(spans.len(), 3);
    assert_eq!(spans[0].len(), 2);
    assert_eq!((spans[0][0].start_byte, spans[0][0].end_byte, spans[0][0].style), (0, 2, 0));
    // Six bytes, five characters.
    assert_eq!((spans[0][1].start_byte, spans[0][1].end_byte, spans[0][1].style), (3, 6, 1));
    assert_eq!(spans[1].len(), 1);
    assert_eq!(spans[1][0].style, 0);
    assert!(spans[2].is_empty());
    assert_eq!(e.style_table().len(), 2);
    assert_eq!(e.styled_spans[0].len(), 2);
    assert_eq!(e.styled_spans[0][1].1, 6);
}

#[test]
fn terminal_spans_are_kept_as_given() {
    let mut e = editor_with("abc");
    let none = TermModifiers {
        bold: false,
        dim: false,
        italic: false,
        underlined: false,
        slow_blink: false,
        rapid_blink: false,
        reversed: false,
        hidden: false,
        crossed_out: false,
    };
    let s = TermStyle { fg: Some(TermColor::Red), bg: None, add: none, sub: none };
    e.install_ratatui_syntax_spans(vec![vec![(1, 50, s)]]);
    assert_eq!(e.buffer_spans()[0][0].end_byte, 3);
    assert_eq!(e.styled_spans[0][0].1, 50);
    assert_eq!(e.intern_ratatui_style(s), 0);
    assert_eq!(e.engine_style_at(0).unwrap().fg, Some(Color(205, 49, 49)));
}

// ── Changes for the host ─────────────────────────────────────────────

#[test]
fn take_changes_emits_per_row_for_block_insert() {
    let mut e = editor_with("aaa\nbbb\nccc\nddd");
    let _ = e.mutate_edit(Edit::InsertBlock {
        at: Position::new(0, 0),
        chunks: vec!["X".to_string(), "X".to_string(), "X".to_string()],
    });
    let changes = e.take_changes();
    assert!(changes.len() >= 3);
    assert_eq!(e.content(), "Xaaa\nXbbb\nXccc\nddd\n");
}

#[test]
fn take_changes_drains_after_insert() {
    let mut e = editor_with("abc");
    assert!(e.take_changes().is_empty());
    insert_char(&mut e, 0, 0, 'X');
    let changes = e.take_changes();
    assert!(!changes.is_empty());
    assert!(e.take_changes().is_empty());
}

#[test]
fn take_content_change_returns_some_on_first_dirty() {
    let mut e = editor_with("hello");
    let first = e.take_content_change();
    assert!(first.is_some());
    let second = e.take_content_change();
    assert!(second.is_none());
}

#[test]
fn take_content_change_none_until_mutation() {
    let mut e = editor_with("hello");
    e.take_content_change();
    assert!(e.take_content_change().is_none());
    insert_char(&mut e, 0, 0, 'x');
    let after = e.take_content_change();
    assert!(after.is_some());
    assert!(after.unwrap().contains('x'));
}

#[test]
fn set_content_dirties_then_take_dirty_clears() {
    let mut e = editor_with("hello");
    assert!(e.take_dirty(), "set_content should leave content_dirty=true");
    assert!(!e.take_dirty(), "take_dirty should clear the flag");
}

#[test]
fn content_arc_returns_same_arc_until_mutation() {
    let mut e = editor_with("hello");
    let a = e.content_arc();
    let b = e.content_arc();
    assert!(Arc::ptr_eq(&a, &b), "repeated content_arc() should hit the cache");

    insert_char(&mut e, 0, 0, '!');
    let c = e.content_arc();
    assert!(!Arc::ptr_eq(&a, &c), "mutation should invalidate content_arc() cache");
    assert!(c.contains('!'));
}

#[test]
fn content_arc_cache_invalidated_by_set_content() {
    let mut e = editor_with("one");
    let a = e.content_arc();
    e.set_content("two");
    let b = e.content_arc();
    assert!(!Arc::ptr_eq(&a, &b));
    assert!(b.starts_with("two"));
}

#[test]
fn content_edit_insert_char_at_origin() {
    let mut e = fresh_editor("");
    insert_char(&mut e, 0, 0, 'a');
    let edits = e.take_content_edits();
    assert_eq!(edits.len(), 1);
    let ce = &edits[0];
    assert_eq!(ce.start_byte, 0);
    assert_eq!(ce.old_end_byte, 0);
    assert_eq!(ce.new_end_byte, 1);
    assert_eq!(ce.start_position, (0, 0));
    assert_eq!(ce.old_end_position, (0, 0));
    assert_eq!(ce.new_end_position, (0, 1));
}

#[test]
fn content_edit_insert_str_multiline() {
    let mut e = fresh_editor("x\ny");
    let _ = e.mutate_edit(Edit::InsertStr { at: Position::new(0, 1), text: "ab\ncd".into() });
    let edits = e.take_content_edits();
    assert_eq!(edits.len(), 1);
    let ce = &edits[0];
    assert_eq!(ce.start_byte, 1);
    assert_eq!(ce.old_end_byte, 1);
    assert_eq!(ce.new_end_byte, 1 + 5);
    assert_eq!(ce.start_position, (0, 1));
    assert_eq!(ce.new_end_position, (1, 2));
}

#[test]
fn content_edit_delete_range_charwise() {
    let mut e = fresh_editor("abcdef");
    let _ = e.mutate_edit(Edit::DeleteRange {
        start: Position::new(0, 1),
        end: Position::new(0, 4),
        kind: MotionKind::Char,
    });
    let edits = e.take_content_edits();
    assert_eq!(edits.len(), 1);
    let ce = &edits[0];
    assert_eq!(ce.start_byte, 1);
    assert_eq!(ce.old_end_byte, 4);
    assert_eq!(ce.new_end_byte, 1);
    assert!(ce.old_end_byte > ce.new_end_byte);
}

#[test]
fn content_edit_set_content_resets() {
    let mut e = fresh_editor("foo");
    insert_char(&mut e, 0, 0, 'X');
    e.set_content("brand new");
    assert!(e.take_content_reset());
    assert!(!e.take_content_reset());
    assert!(e.take_content_edits().is_empty());
}

#[test]
fn content_edit_multiple_replaces_in_order() {
    let mut e = fresh_editor("xax xbx xcx");
    let _ = e.take_content_edits();
    let _ = e.take_content_reset();
    let positions = [(0usize, 0usize), (0, 4), (0, 8)];
    for (row, col) in positions {
        let _ = e.mutate_edit(Edit::Replace {
            start: Position::new(row, col),
            end: Position::new(row, col + 1),
            with: "yy".into(),
        });
    }
    let edits = e.take_content_edits();
    assert_eq!(edits.len(), 3);
    for ce in &edits {
        assert!(ce.start_byte <= ce.old_end_byte);
        assert!(ce.start_byte <= ce.new_end_byte);
    }
    for w in edits.windows(2) {
        assert!(w[0].start_byte <= w[1].start_byte);
    }
}

// ── Edits ────────────────────────────────────────────────────────────

#[test]
fn a_read_only_editor_changes_nothing() {
    let mut e = editor_with("abc");
    e.take_dirty();
    e.jump_cursor(0, 2);
    e.settings_mut().readonly = true;
    let back = e.mutate_edit(Edit::InsertStr { at: Position::new(0, 0), text: "x".into() });
    assert_eq!(back, Edit::InsertStr { at: Position::new(0, 2), text: String::new() });
    assert_eq!(e.content(), "abc\n");
    assert!(!e.take_dirty());
    assert!(e.take_changes().is_empty());
}

#[test]
fn an_edit_is_taken_back_by_what_it_returns() {
    let text = "alpha\nbeta\ngamma\ndelta";
    let edits = vec![
        Edit::InsertChar { at: Position::new(1, 2), ch: '\n' },
        Edit::InsertStr { at: Position::new(0, 3), text: "x\ny\u{e9}\nz".into() },
        Edit::DeleteRange {
            start: Position::new(0, 2),
            end: Position::new(2, 1),
            kind: MotionKind::Char,
        },
        Edit::DeleteRange {
            start: Position::new(1, 0),
            end: Position::new(2, 0),
            kind: MotionKind::Line,
        },
        Edit::DeleteRange {
            start: Position::new(2, 3),
            end: Position::new(0, 1),
            kind: MotionKind::Block,
        },
        Edit::JoinLines { row: 1, count: 2, with_space: true },
        Edit::JoinLines { row: 0, count: 1, with_space: false },
        Edit::SplitLines { row: 2, cols: vec![1, 3], inserted_space: false },
        Edit::Replace {
            start: Position::new(3, 1),
            end: Position::new(1, 1),
            with: "new\ntext".into(),
        },
        Edit::InsertBlock {
            at: Position::new(1, 2),
            chunks: vec!["<>".to_string(), "[]".to_string()],
        },
        Edit::DeleteBlockChunks { at: Position::new(0, 1), widths: vec![2, 1, 9] },
    ];
    for edit in edits {
        let mut e = fresh_editor(text);
        let shown = format!("{edit:?}");
        let back = e.mutate_edit(edit);
        let between = e.content();
        let _ = e.mutate_edit(back);
        assert_eq!(e.content(), format!("{text}\n"), "{shown} left {between:?}");
        assert_ne!(between, e.content(), "{shown}");
    }
}

#[test]
fn marks_and_jumps_move_with_the_rows() {
    let mut e = fresh_editor("a\nb\nc\nd\ne");
    e.set_mark('a', (0, 0));
    e.set_mark('c', (2, 0));
    e.set_mark('d', (3, 0));
    e.record_jump((4, 0));
    // Two rows more below row 1.
    e.jump_cursor(1, 0);
    let _ = e.mutate_edit(Edit::InsertStr { at: Position::new(1, 1), text: "\nx\ny".into() });
    assert_eq!(e.mark('a'), Some((0, 0)));
    assert_eq!(e.mark('c'), Some((4, 0)));
    assert_eq!(e.mark('d'), Some((5, 0)));
    assert_eq!(e.last_jump_back(), Some((6, 0)));
    // Rows 3 and 4 go away, and with them the mark on row 4.
    e.jump_cursor(3, 0);
    let _ = e.mutate_edit(Edit::DeleteRange {
        start: Position::new(3, 0),
        end: Position::new(4, 0),
        kind: MotionKind::Line,
    });
    assert_eq!(e.mark('c'), None);
    assert_eq!(e.mark('d'), Some((3, 0)));
    assert_eq!(e.last_jump_back(), Some((4, 0)));
    assert_eq!(e.last_edit_pos(), Some((3, 0)));
}

#[test]
fn folds_around_an_edit_are_dropped() {
    let mut e = fresh_editor("a\nb\nc\nd\ne");
    e.apply_fold_op(FoldOp::Add { start_row: 1, end_row: 2, closed: true });
    e.apply_fold_op(FoldOp::Add { start_row: 3, end_row: 4, closed: true });
    e.take_fold_ops();
    e.jump_cursor(2, 0);
    insert_char(&mut e, 2, 0, 'x');
    assert_eq!(e.buffer().folds().len(), 1);
    assert_eq!(e.buffer().folds()[0].start_row, 3);
    assert_eq!(e.take_fold_ops(), vec![FoldOp::Invalidate { start_row: 2, end_row: 2 }]);
    assert!(e.take_fold_ops().is_empty());
}

#[test]
fn a_completion_takes_the_place_of_the_word_before_the_cursor() {
    let mut e = editor_with("let foo_ba = 1");
    e.jump_cursor(0, 10);
    e.accept_completion("foo_bar");
    assert_eq!(e.content(), "let foo_bar = 1\n");
    assert_eq!(e.cursor(), (0, 11));
    e.jump_cursor(0, 4);
    e.accept_completion("x_");
    assert_eq!(e.content(), "let x_foo_bar = 1\n");
    // Letters outside ASCII belong to a word.
    let mut e = editor_with("\u{e9}t\u{e9}");
    e.jump_cursor(0, 3);
    e.accept_completion("hiver");
    assert_eq!(e.content(), "hiver\n");
}

#[test]
fn text_is_inserted_at_the_cursor() {
    let mut e = editor_with("ab");
    e.take_dirty();
    e.jump_cursor(0, 1);
    e.insert_str("1\n2");
    assert_eq!(e.content(), "a1\n2b\n");
    assert_eq!(e.cursor(), (1, 1));
    assert!(e.take_dirty());
    assert_eq!(e.undo_stack_len(), 0);
}

// ── Undo ─────────────────────────────────────────────────────────────

#[test]
fn vim_undo_redo_roundtrip() {
    let mut e = editor_with("hello");
    e.push_undo();
    e.insert_str("world");
    let after = e.buffer().lines()[0].clone();
    e.undo();
    assert_eq!(e.buffer().lines()[0], "hello");
    e.redo();
    assert_eq!(e.buffer().lines()[0], after);
}

#[test]
fn undo_without_history_moves_nothing_but_the_mode() {
    let mut e = editor_with("hello");
    e.vim.mode = VimMode::Insert;
    e.undo();
    e.redo();
    assert_eq!(e.vim_mode(), VimMode::Normal);
    assert_eq!(e.content(), "hello\n");
    assert!(!e.pop_last_undo());
}

#[test]
fn the_undo_history_is_capped() {
    let mut e = editor_with("x");
    e.settings_mut().undo_levels = 3;
    for i in 0..5 {
        e.push_undo();
        e.set_mark('a', (i, 0));
    }
    assert_eq!(e.undo_stack_len(), 3);
    assert!(e.pop_last_undo());
    assert_eq!(e.undo_stack_len(), 2);
    e.settings_mut().undo_levels = 0;
    for _ in 0..5 {
        e.push_undo();
    }
    assert_eq!(e.undo_stack_len(), 7);
}

#[test]
fn a_new_text_reads_back_with_its_last_line_break() {
    let mut e = editor();
    e.set_content("");
    assert_eq!(e.content(), "\n");
    e.set_content("one\n\ntwo\n");
    assert_eq!(e.content(), "one\n\ntwo\n\n");
    assert_eq!(*e.content_arc(), "one\n\ntwo\n\n");
}

#[test]
fn restored_lines_take_the_place_of_the_text() {
    let mut e = editor_with("old");
    e.restore(vec!["a".to_string(), "bc".to_string()], (1, 9));
    assert_eq!(e.content(), "a\nbc\n");
    assert_eq!(e.cursor(), (1, 2));
    assert!(e.take_content_reset());
}

// ── Highlights, frames and snapshots ─────────────────────────────────

#[test]
fn selection_highlight_none_in_normal() {
    let e = editor_with("hello");
    assert!(e.selection_highlight().is_none());
}

#[test]
fn selection_highlight_some_in_visual() {
    let mut e = editor_with("hello world");
    e.mouse_begin_drag();
    e.jump_cursor(0, 2);
    let h = e.selection_highlight().expect("visual mode should produce a highlight");
    assert_eq!(h.kind, HighlightKind::Selection);
    assert_eq!(h.range.start.line, 0);
    assert_eq!(h.range.end.line, 0);
    assert_eq!(h.range, Pos::new(0, 0)..Pos::new(0, 2));
}

#[test]
fn selections_of_every_kind() {
    let mut e = editor_with("abc\nd\u{e9}f\nghi");
    e.jump_cursor(2, 1);
    e.mouse_begin_drag();
    assert_eq!(e.vim_mode(), VimMode::Visual);
    e.jump_cursor(0, 2);
    assert_eq!(e.char_highlight(), Some(((0, 2), (2, 1))));
    assert_eq!(e.line_highlight(), None);
    assert_eq!(
        e.buffer_selection(),
        Some(Selection::Char { anchor: Position::new(2, 1), head: Position::new(0, 2) })
    );
    e.vim.mode = VimMode::VisualLine;
    e.vim.visual_line_anchor = 1;
    assert_eq!(e.line_highlight(), Some((0, 1)));
    assert_eq!(
        e.buffer_selection(),
        Some(Selection::Line { anchor_row: 1, head_row: 0 })
    );
    // Three characters, four bytes.
    assert_eq!(e.selection_highlight().unwrap().range, Pos::new(0, 0)..Pos::new(1, 3));
    e.vim.mode = VimMode::VisualBlock;
    e.vim.block_anchor = (2, 0);
    e.vim.block_vcol = 5;
    assert_eq!(e.block_highlight(), Some((0, 2, 0, 5)));
    assert_eq!(e.selection_highlight().unwrap().range, Pos::new(0, 0)..Pos::new(2, 5));
    e.force_normal();
    assert_eq!(e.char_highlight(), None);
    assert_eq!(e.block_highlight(), None);
    assert_eq!(e.buffer_selection(), None);
}

#[test]
fn highlights_emit_incsearch_during_active_prompt() {
    let mut e = editor_with("foo bar foo\nbaz\n");
    e.vim.search_prompt = Some(prompt("foo"));
    assert!(e.search_prompt().is_some());
    let hs = e.highlights_for_line(0);
    assert_eq!(hs.len(), 2);
    for h in &hs {
        assert_eq!(h.kind, HighlightKind::IncSearch);
    }
}

#[test]
fn highlights_empty_for_blank_prompt() {
    let mut e = editor_with("foo");
    e.vim.search_prompt = Some(prompt(""));
    assert!(e.search_prompt().is_some());
    assert!(e.highlights_for_line(0).is_empty());
}

#[test]
fn highlights_empty_for_a_prompt_that_does_not_compile() {
    let mut e = editor_with("foo");
    e.set_search_pattern(Some(regex::Regex::new("foo").unwrap()));
    e.vim.search_prompt = Some(prompt("("));
    assert!(e.highlights_for_line(0).is_empty());
}

#[test]
fn highlights_emit_search_matches() {
    let mut e = editor_with("foo bar foo\nbaz qux\n");
    e.set_search_pattern(Some(regex::Regex::new("foo").unwrap()));
    let hs = e.highlights_for_line(0);
    assert_eq!(hs.len(), 2);
    for h in &hs {
        assert_eq!(h.kind, HighlightKind::SearchMatch);
        assert_eq!(h.range.start.line, 0);
        assert_eq!(h.range.end.line, 0);
    }
}

#[test]
fn highlights_count_characters() {
    let mut e = editor_with("\u{e9}\u{e9}foo");
    e.set_search_pattern(Some(regex::Regex::new("fo+").unwrap()));
    let hs = e.highlights_for_line(0);
    assert_eq!(hs.len(), 1);
    assert_eq!(hs[0].range, Pos::new(0, 2)..Pos::new(0, 5));
}

#[test]
fn highlights_empty_without_pattern() {
    let mut e = editor_with("foo bar");
    assert!(e.highlights_for_line(0).is_empty());
}

#[test]
fn highlights_empty_for_out_of_range_line() {
    let mut e = editor_with("foo");
    e.set_search_pattern(Some(regex::Regex::new("foo").unwrap()));
    assert!(e.highlights_for_line(99).is_empty());
}

#[test]
fn render_frame_reflects_mode_and_cursor() {
    let mut e = editor_with("alpha\nbeta");
    let f = e.render_frame();
    assert_eq!(f.mode, SnapshotMode::Normal);
    assert_eq!(f.cursor_shape, CursorShape::Block);
    assert_eq!(f.line_count, 2);

    e.vim.mode = VimMode::Insert;
    let f = e.render_frame();
    assert_eq!(f.mode, SnapshotMode::Insert);
    assert_eq!(f.cursor_shape, CursorShape::Bar);
}

#[test]
fn snapshot_roundtrips_through_restore() {
    let mut e = editor_with("alpha\nbeta\ngamma");
    e.jump_cursor(2, 3);
    let snap = e.take_snapshot();
    assert_eq!(snap.mode, SnapshotMode::Normal);
    assert_eq!(snap.cursor, (2, 3));
    assert_eq!(snap.lines.len(), 3);

    let mut other = editor();
    other.restore_snapshot(snap).expect("restore");
    assert_eq!(other.cursor(), (2, 3));
    assert_eq!(other.buffer().lines().len(), 3);
}

#[test]
fn a_snapshot_brings_back_marks_registers_and_the_viewport() {
    let mut e = editor_with(&many_lines(30));
    e.set_mark('b', (7, 1));
    e.set_mark('A', (2, 0));
    e.set_viewport_top(12);
    e.seed_yank("kept\n".to_string());
    let snap = e.take_snapshot();
    assert_eq!(snap.file_marks, vec![('A', (2, 0)), ('b', (7, 1))]);
    let mut other = editor_with("something else");
    other.set_mark('z', (0, 0));
    other.restore_snapshot(snap.clone()).expect("restore");
    assert_eq!(other.content(), e.content());
    assert_eq!(other.marks(), e.marks());
    assert_eq!(other.host().viewport().top_row, 12);
    assert_eq!(other.yank(), "kept\n");
    assert!(other.registers().unnamed.linewise);
}

#[test]
fn a_snapshot_holds_the_byte_of_the_cursor() {
    let mut e = editor_with("x\na\u{e9}\u{6f22}b");
    e.jump_cursor(1, 3);
    let snap = e.take_snapshot();
    assert_eq!(snap.cursor, (1, 6));
    let mut other = editor();
    other.restore_snapshot(snap.clone()).expect("restore");
    assert_eq!(other.cursor(), (1, 3));
    // A byte inside a character stands for that character.
    let mut inside = snap;
    inside.cursor = (1, 2);
    other.restore_snapshot(inside).expect("restore");
    assert_eq!(other.cursor(), (1, 1));
}

#[test]
fn restore_snapshot_rejects_version_mismatch() {
    let mut e = editor();
    let mut snap = e.take_snapshot();
    snap.version = 9999;
    match e.restore_snapshot(snap) {
        Err(EngineError::SnapshotVersion(got, want)) => {
            assert_eq!(got, 9999);
            assert_eq!(want, EditorSnapshot::VERSION);
        }
        other => panic!("expected SnapshotVersion err, got {other:?}"),
    }
}

// ── Marks, registers and lists ───────────────────────────────────────

#[test]
fn marks_are_listed_by_name() {
    let mut e = editor_with("a\nb");
    e.set_mark('z', (1, 0));
    e.set_mark('B', (0, 1));
    e.set_mark('a', (0, 0));
    e.set_mark('a', (1, 1));
    assert_eq!(e.marks(), vec![('B', (0, 1)), ('a', (1, 1)), ('z', (1, 0))]);
    assert_eq!(e.buffer_marks(), vec![('a', (1, 1)), ('z', (1, 0))]);
    assert_eq!(e.file_marks(), vec![('B', (0, 1))]);
    assert_eq!(e.buffer_mark('z'), Some((1, 0)));
    e.clear_mark('z');
    assert_eq!(e.mark('z'), None);
    let mut m = Marks::new();
    m.set('q', (3, 4));
    assert_eq!(m.get('q'), Some((3, 4)));
}

#[test]
fn yanks_and_deletions_go_to_their_registers() {
    let mut e = editor();
    e.record_yank("y".to_string(), false);
    assert_eq!(e.yank(), "y");
    assert_eq!(e.registers().yank_zero.text, "y");
    e.record_delete("d1\n".to_string(), true);
    e.record_delete("d2".to_string(), false);
    assert_eq!(e.yank(), "d2");
    assert_eq!(e.registers().yank_zero.text, "y");
    let ring: Vec<&str> = e.registers().delete_ring.iter().map(|s| s.text.as_str()).collect();
    assert_eq!(ring, vec!["d2", "d1\n", "", "", "", "", "", "", ""]);
    assert!(e.registers().delete_ring[1].linewise);
    e.vim.pending_register = Some('c');
    e.record_yank("named".to_string(), false);
    assert_eq!(e.registers().named[2].text, "named");
    assert_eq!(e.yank(), "named");
    e.vim.pending_register = Some('+');
    e.record_delete("clip".to_string(), false);
    assert_eq!(e.registers().clip.text, "clip");
    assert_eq!(e.registers().delete_ring[0].text, "clip");
    assert_eq!(e.registers().named[2].text, "named");
}

#[test]
fn registers_take_what_they_are_given() {
    let mut e = editor();
    e.seed_yank("line\n".to_string());
    assert_eq!(e.yank(), "line\n");
    assert!(e.vim.yank_linewise);
    e.set_yank("plain");
    assert!(e.registers().unnamed.linewise);
    e.sync_clipboard_register("clip".to_string(), false);
    assert_eq!(e.registers().clip.text, "clip");
    e.set_named_register_text('b', "bb".to_string());
    e.set_named_register_text('C', "cc".to_string());
    e.set_named_register_text('!', "no".to_string());
    assert_eq!(e.registers().named[1].text, "bb");
    assert_eq!(e.registers().named[2].text, "cc");
    assert!(!e.pending_register_is_clipboard());
    e.vim.pending_register = Some('*');
    assert!(e.pending_register_is_clipboard());
}

#[test]
fn the_jump_list_keeps_its_latest_places() {
    let mut e = editor();
    for i in 0..105 {
        e.record_jump((i, 0));
    }
    assert_eq!(e.vim.jump_back.len(), 100);
    assert_eq!(e.vim.jump_back[0], (5, 0));
    assert_eq!(e.last_jump_back(), Some((104, 0)));
}

// ── Scrolling ────────────────────────────────────────────────────────

#[test]
fn zz_centers_cursor_in_viewport() {
    let mut e = editor_with(&many_lines(100));
    e.set_viewport_height(20);
    e.jump_cursor(50, 0);
    e.scroll_cursor_to(CursorScrollTarget::Center);
    assert_eq!(e.host().viewport().top_row, 40);
    assert_eq!(e.cursor().0, 50);
}

#[test]
fn zt_puts_cursor_at_viewport_top_with_scrolloff() {
    let mut e = editor_with(&many_lines(100));
    e.set_viewport_height(20);
    e.jump_cursor(50, 0);
    e.scroll_cursor_to(CursorScrollTarget::Top);
    assert_eq!(e.host().viewport().top_row, 45);
    assert_eq!(e.cursor().0, 50);
}

#[test]
fn zb_puts_cursor_at_viewport_bottom_with_scrolloff() {
    let mut e = editor_with(&many_lines(100));
    e.set_viewport_height(20);
    e.jump_cursor(50, 0);
    e.scroll_cursor_to(CursorScrollTarget::Bottom);
    assert_eq!(e.host().viewport().top_row, 36);
    assert_eq!(e.cursor().0, 50);
}

#[test]
fn the_viewport_follows_the_cursor_with_a_margin() {
    let mut e = editor_with(&many_lines(100));
    e.set_viewport_height(20);
    e.sync_viewport_height();
    e.jump_cursor(50, 0);
    e.ensure_cursor_in_scrolloff();
    assert_eq!(e.host().viewport().top_row, 36);
    e.jump_cursor(38, 0);
    e.ensure_cursor_in_scrolloff();
    assert_eq!(e.host().viewport().top_row, 33);
    e.jump_cursor(99, 0);
    e.ensure_cursor_in_scrolloff();
    assert_eq!(e.host().viewport().top_row, 80);
    e.jump_cursor(2, 0);
    e.ensure_cursor_in_scrolloff();
    assert_eq!(e.host().viewport().top_row, 0);
    // Before anything was drawn, the cursor is only brought onto the screen.
    e.set_viewport_height(0);
    e.jump_cursor(30, 0);
    e.ensure_cursor_in_scrolloff();
    assert_eq!(e.host().viewport().top_row, 11);
}

#[test]
fn the_viewport_follows_the_cursor_under_soft_wrap() {
    let mut e = editor_with("aaaabbbbcccc\nx\ny\nz\nw\nv\nu\nt\ns\nr");
    {
        let v = e.host_mut().viewport_mut();
        v.wrap = Wrap::Char;
        v.text_width = 4;
        v.top_col = 3;
    }
    e.set_viewport_height(5);
    e.jump_cursor(4, 0);
    e.ensure_cursor_in_scrolloff();
    // Row 4 is screen row 6 from the top; the margin is two rows.
    assert_eq!(e.host().viewport().top_row, 2);
    assert_eq!(e.host().viewport().top_col, 0);
    e.jump_cursor(9, 0);
    e.ensure_cursor_in_scrolloff();
    assert_eq!(e.host().viewport().top_row, 5);
    e.jump_cursor(0, 9);
    e.ensure_cursor_in_scrolloff();
    assert_eq!(e.host().viewport().top_row, 0);
}

#[test]
fn a_scroll_moves_the_cursor_off_the_margin() {
    let mut e = editor_with(&many_lines(100));
    e.set_viewport_height(20);
    e.jump_cursor(0, 4);
    e.scroll_down(10);
    assert_eq!(e.host().viewport().top_row, 10);
    assert_eq!(e.cursor(), (15, 4));
    e.scroll_up(6);
    assert_eq!(e.host().viewport().top_row, 4);
    assert_eq!(e.cursor(), (15, 4));
    e.scroll_up(4);
    assert_eq!(e.cursor(), (14, 4));
    e.scroll_down(500);
    assert_eq!(e.host().viewport().top_row, 99);
    assert_eq!(e.cursor(), (99, 0));
    e.scroll_down(0);
    assert_eq!(e.host().viewport().top_row, 99);
}

#[test]
fn lines_are_counted_from_one() {
    let mut e = editor_with("abc\nde\nfghi");
    e.goto_line(2);
    assert_eq!(e.cursor(), (1, 0));
    e.goto_line(0);
    assert_eq!(e.cursor(), (0, 0));
    e.goto_line(77);
    assert_eq!(e.cursor(), (2, 0));
    e.jump_to(2, 99);
    assert_eq!(e.cursor(), (1, 2));
    e.jump_to(3, 2);
    assert_eq!(e.cursor(), (2, 1));
    e.set_viewport_top(50);
    assert_eq!(e.host().viewport().top_row, 2);
    assert_eq!(e.viewport_height_value(), 0);
}

#[test]
fn the_cursor_on_the_screen() {
    let mut e = editor_with(&many_lines(100));
    e.jump_cursor(12, 3);
    e.set_viewport_top(10);
    assert_eq!(e.cursor_screen_row(20), 2);
    assert_eq!(e.cursor_screen_row(1), 0);
    assert_eq!(e.host().viewport().top_row, 12);
    e.set_viewport_top(10);
    // Three digits and two blanks make the gutter.
    assert_eq!(e.cursor_screen_pos(1, 2, 40, 20), Some((1 + 5 + 3, 2 + 2)));
    assert_eq!(e.cursor_screen_pos(1, 2, 8, 20), None);
    assert_eq!(e.cursor_screen_pos(1, 2, 9, 2), None);
    let area = Rect { x: 1, y: 2, width: 9, height: 3 };
    assert_eq!(e.cursor_screen_pos_in_rect(area), Some((9, 4)));
    e.set_viewport_top(13);
    assert_eq!(e.cursor_screen_pos(0, 0, 80, 24), None);
    assert_eq!(e.cursor_screen_row(20), 0);
}

#[test]
fn asking_for_the_screen_row_brings_the_cursor_into_view() {
    let mut e = editor_with(&many_lines(100));
    e.jump_cursor(50, 0);
    e.set_viewport_top(10);
    assert_eq!(e.cursor_screen_row(20), 19);
    assert_eq!(e.host().viewport().top_row, 31);
    e.jump_cursor(5, 0);
    e.set_viewport_top(10);
    assert_eq!(e.cursor_screen_row(20), 0);
    assert_eq!(e.host().viewport().top_row, 5);
}

// ── The mouse ────────────────────────────────────────────────────────

fn area() -> Rect {
    Rect { x: 0, y: 0, width: 80, height: 10 }
}

#[test]
fn mouse_click_past_eol_lands_on_last_char() {
    let mut e = editor_with("hello");
    e.mouse_click_in_rect(area(), 78, 1);
    assert_eq!(e.cursor(), (0, 4));
}

#[test]
fn mouse_click_past_eol_handles_multibyte_line() {
    let mut e = editor_with("h\u{e9}llo");
    e.mouse_click_in_rect(area(), 78, 1);
    assert_eq!(e.cursor(), (0, 4));
}

#[test]
fn mouse_click_inside_line_lands_on_clicked_char() {
    let mut e = editor_with("hello world");
    e.mouse_click_in_rect(area(), 4, 1);
    assert_eq!(e.cursor(), (0, 0));
    e.mouse_click_in_rect(area(), 6, 1);
    assert_eq!(e.cursor(), (0, 2));
}

#[test]
fn mouse_click_breaks_insert_undo_group_when_undobreak_on() {
    let mut e = editor_with("hello world");
    assert!(e.settings().undo_break_on_motion);
    e.push_undo();
    e.vim.mode = VimMode::Insert;
    e.insert_str("AAA");
    e.mouse_click_in_rect(area(), 10, 1);
    e.insert_str("BBB");
    e.force_normal();
    e.undo();
    let line = e.buffer().line(0).unwrap_or("").to_string();
    assert!(line.contains("AAA"), "AAA must survive undo (separate group): {line:?}");
    assert!(!line.contains("BBB"), "BBB must be undone (post-click group): {line:?}");
}

#[test]
fn mouse_click_keeps_one_undo_group_when_undobreak_off() {
    let mut e = editor_with("hello world");
    e.settings_mut().undo_break_on_motion = false;
    e.push_undo();
    e.vim.mode = VimMode::Insert;
    e.insert_str("AA");
    e.mouse_click_in_rect(area(), 10, 1);
    e.insert_str("BB");
    e.force_normal();
    e.undo();
    let line = e.buffer().line(0).unwrap_or("").to_string();
    assert!(!line.contains("AA") && !line.contains("BB"));
    assert_eq!(line, "hello world");
}

#[test]
fn a_drag_selects_from_where_it_started() {
    let mut e = editor_with("hello\nworld");
    e.mouse_click(0, 0, 5, 1);
    assert_eq!(e.cursor(), (0, 1));
    e.mouse_begin_drag();
    e.mouse_extend_drag(0, 0, 7, 2);
    assert_eq!(e.char_highlight(), Some(((0, 1), (1, 3))));
    e.mouse_extend_drag_in_rect(area(), 4, 0);
    assert_eq!(e.char_highlight(), Some(((0, 0), (0, 1))));
    e.mouse_click(0, 0, 4, 2);
    assert_eq!(e.vim_mode(), VimMode::Normal);
    assert_eq!(e.cursor(), (1, 0));
}

// ── The host ─────────────────────────────────────────────────────────

#[test]
fn host_clipboard_round_trip_via_default_host() {
    let mut e = editor();
    e.host_mut().write_clipboard("payload".to_string());
    assert_eq!(e.host_mut().read_clipboard().as_deref(), Some("payload"));
}

#[test]
fn host_records_clipboard_on_yank() {
    let mut e = editor_with("hello\n");
    e.record_yank_to_host("hello\n".to_string());
    let clip = e.host_mut().read_clipboard();
    assert!(
        clip.as_deref().unwrap_or("").starts_with("hello"),
        "host clipboard should carry the yank: {clip:?}"
    );
    assert!(e.last_yank.as_deref().unwrap_or("").starts_with("hello"));
}

struct RecordingHost {
    shapes: &'static Mutex<Vec<CursorShape>>,
    viewport: Viewport,
}

impl Host for RecordingHost {
    type Intent = ();
    fn write_clipboard(&mut self, _: String) {}
    fn read_clipboard(&mut self) -> Option<String> {
        None
    }
    fn now(&self) -> Duration {
        Duration { nanos: 0 }
    }
    fn prompt_search(&mut self) -> Option<String> {
        None
    }
    fn emit_cursor_shape(&mut self, s: CursorShape) {
        self.shapes.lock().unwrap().push(s);
    }
    fn viewport(&self) -> &Viewport {
        &self.viewport
    }
    fn viewport_mut(&mut self) -> &mut Viewport {
        &mut self.viewport
    }
    fn emit_intent(&mut self, _: Self::Intent) {}
}

#[test]
fn host_cursor_shape_via_shared_recorder() {
    let shapes: &'static Mutex<Vec<CursorShape>> = Box::leak(Box::new(Mutex::new(Vec::new())));
    let mut e = Editor::new(
        Buffer::new(),
        RecordingHost { shapes, viewport: Viewport::default() },
        Options::default(),
    );
    e.set_content("abc");
    e.emit_cursor_shape_if_changed();
    e.vim.mode = VimMode::Insert;
    e.emit_cursor_shape_if_changed();
    e.emit_cursor_shape_if_changed();
    e.force_normal();
    e.emit_cursor_shape_if_changed();
    let seen = shapes.lock().unwrap().clone();
    assert_eq!(
        seen,
        vec![CursorShape::Bar, CursorShape::Block],
        "host should observe Insert(Bar) → Normal(Block) transitions"
    );
    assert_eq!(e.host().display_line_for(Pos::new(4, 2)), 4);
    assert_eq!(e.host().pos_for_display(3, 1), Pos::new(3, 1));
    assert!(e.host().syntax_highlights(Pos::new(0, 0)..Pos::new(1, 0)).is_empty());
    assert!(!e.host().should_cancel());
}

#[test]
fn folds_of_the_editor_hide_rows() {
    let mut e = editor_with("a\nb\nc\nd");
    e.apply_fold_op(FoldOp::Add { start_row: 1, end_row: 2, closed: true });
    let p = hjkl_engine::folds::BufferFoldProvider::new(e.buffer());
    assert!(p.is_row_hidden(2));
    assert!(!p.is_row_hidden(1));
    assert_eq!(p.next_visible_row(1, 4), Some(3));
    assert_eq!(p.prev_visible_row(3), Some(1));
}

#[test]
fn a_read_only_editor_takes_no_text() {
    let mut e = editor_with("foo");
    e.settings_mut().readonly = true;
    e.insert_str("x");
    e.jump_cursor(0, 3);
    e.accept_completion("food");
    assert_eq!(e.content(), "foo\n");
    assert_eq!(e.undo_stack_len(), 0);
    e.settings_mut().readonly = false;
    e.accept_completion("food");
    assert_eq!(e.content(), "food\n");
}
