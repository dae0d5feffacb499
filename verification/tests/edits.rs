//! Edits of every kind: what they do, what takes them back, what is refused,
//! and what they leave for the host.
use hjkl_buffer::Buffer;
use hjkl_engine::buffer::{Edit, MotionKind, Position};
use hjkl_engine::content::{
    advance_by_text, content_edits_from_buffer_edit, edit_to_editops, ByteCoords, ContentEdit,
};
use hjkl_engine::{BufferEdit, DefaultHost, Editor, Options, Pos};

fn editor(text: &str) -> Editor<Buffer, DefaultHost> {
    Editor::new(Buffer::from_str(text), DefaultHost::new(), Options::default())
}

fn at(row: usize, col: usize) -> Position {
    Position::new(row, col)
}

fn strings(v: &[&str]) -> Vec<String> {
    v.iter().map(|s| s.to_string()).collect()
}

/// Applies an edit, checks the text, and takes the edit back.
fn there_and_back(before: &str, edit: Edit, after: &str) {
    let mut e = editor(before);
    let back = e.mutate_edit(edit);
    assert_eq!(e.content(), format!("{after}\n"));
    let _ = e.mutate_edit(back);
    assert_eq!(e.content(), format!("{before}\n"));
}

#[test]
fn an_inserted_character_is_taken_back() {
    there_and_back("ab\ncd", Edit::InsertChar { at: at(0, 1), ch: 'x' }, "axb\ncd");
}

#[test]
fn inserted_lines_are_taken_back() {
    let edit = Edit::InsertStr { at: at(0, 1), text: "1\n2".to_string() };
    there_and_back("ab\ncd", edit, "a1\n2b\ncd");
}

#[test]
fn deleted_characters_are_taken_back() {
    let edit = Edit::DeleteRange { start: at(1, 1), end: at(0, 1), kind: MotionKind::Char };
    there_and_back("ab\ncd", edit, "ad");
}

#[test]
fn deleted_rows_are_taken_back() {
    let edit = Edit::DeleteRange { start: at(0, 1), end: at(1, 0), kind: MotionKind::Line };
    there_and_back("ab\ncd\nef", edit, "ef");
}

#[test]
fn a_deleted_block_is_taken_back() {
    let edit = Edit::DeleteRange { start: at(0, 1), end: at(1, 1), kind: MotionKind::Block };
    there_and_back("abc\ndef", edit, "ac\ndf");
}

#[test]
fn joined_rows_are_taken_back() {
    let edit = Edit::JoinLines { row: 0, count: 2, with_space: true };
    there_and_back("ab\ncd\nef", edit, "ab cd ef");
    let edit = Edit::JoinLines { row: 0, count: 1, with_space: false };
    there_and_back("ab\ncd\nef", edit, "abcd\nef");
}

#[test]
fn a_split_row_is_taken_back() {
    let edit = Edit::SplitLines { row: 0, cols: vec![1, 3], inserted_space: false };
    there_and_back("abcd", edit, "a\nbc\nd");
}

#[test]
fn replaced_text_is_taken_back() {
    let edit = Edit::Replace { start: at(0, 0), end: at(0, 2), with: "x\nyz".to_string() };
    there_and_back("abc", edit, "x\nyzc");
}

#[test]
fn an_inserted_block_is_taken_back() {
    let edit = Edit::InsertBlock { at: at(0, 1), chunks: strings(&["x", "yy"]) };
    there_and_back("ab\ncd", edit, "axb\ncyyd");
}

#[test]
fn deleted_chunks_are_taken_back() {
    let edit = Edit::DeleteBlockChunks { at: at(0, 1), widths: vec![1, 2] };
    there_and_back("abc\ndef", edit, "ac\nd");
}

#[test]
fn a_join_of_more_rows_than_there_are_takes_them_all() {
    let mut e = editor("a\nb\nc");
    let _ = e.mutate_edit(Edit::JoinLines { row: 0, count: usize::MAX, with_space: true });
    assert_eq!(e.content(), "a b c\n");
}

#[test]
fn a_short_row_is_filled_up_to_the_block() {
    let mut e = editor("a\nbcd");
    let _ = e.mutate_edit(Edit::InsertBlock { at: at(0, 3), chunks: strings(&["x", "y"]) });
    assert_eq!(e.content(), "a  x\nbcdy\n");
}

// ── Edits that name what is not there ────────────────────────────────

fn refused(edit: Edit) {
    let mut e = editor("ab\ncd");
    assert!(e.try_mutate_edit(edit.clone()).is_none());
    assert_eq!(e.content(), "ab\ncd\n");
    assert!(!e.take_dirty());
    assert!(e.take_changes().is_empty());
    e.settings_mut().readonly = true;
    assert_eq!(
        e.try_mutate_edit(edit),
        Some(Edit::InsertStr { at: at(0, 0), text: String::new() })
    );
}

#[test]
fn edits_of_missing_rows_are_refused() {
    refused(Edit::DeleteRange { start: at(0, 0), end: at(2, 0), kind: MotionKind::Char });
    refused(Edit::DeleteRange { start: at(3, 0), end: at(5, 0), kind: MotionKind::Line });
    refused(Edit::DeleteRange { start: at(0, 0), end: at(2, 0), kind: MotionKind::Block });
    refused(Edit::Replace { start: at(2, 0), end: at(2, 0), with: "x".to_string() });
    refused(Edit::InsertBlock { at: at(1, 0), chunks: strings(&["x", "y"]) });
    refused(Edit::DeleteBlockChunks { at: at(1, 0), widths: vec![1, 1] });
}

#[test]
fn edits_of_columns_that_cannot_be_are_refused() {
    refused(Edit::DeleteRange {
        start: at(0, 0),
        end: at(0, usize::MAX),
        kind: MotionKind::Block,
    });
    refused(Edit::DeleteBlockChunks { at: at(0, 1), widths: vec![usize::MAX] });
    refused(Edit::InsertBlock { at: at(0, usize::MAX), chunks: strings(&["x"]) });
}

#[test]
fn a_chunk_with_a_line_break_is_refused() {
    refused(Edit::InsertBlock { at: at(0, 0), chunks: strings(&["x\ny"]) });
}

#[test]
fn an_edit_of_rows_that_are_there_is_made() {
    let mut e = editor("ab\ncd");
    let edit = Edit::DeleteRange { start: at(0, 1), end: at(1, 1), kind: MotionKind::Char };
    assert_eq!(
        e.try_mutate_edit(edit),
        Some(Edit::InsertStr { at: at(0, 1), text: "b\nc".to_string() })
    );
    assert_eq!(e.content(), "ad\n");
    assert!(e.take_dirty());
}

// ── Records ──────────────────────────────────────────────────────────

fn record(
    start: (usize, (u32, u32)),
    old_end: (usize, (u32, u32)),
    new_end: (usize, (u32, u32)),
) -> ContentEdit {
    ContentEdit {
        start_byte: start.0,
        old_end_byte: old_end.0,
        new_end_byte: new_end.0,
        start_position: start.1,
        old_end_position: old_end.1,
        new_end_position: new_end.1,
    }
}

#[test]
fn a_record_counts_bytes() {
    let b = Buffer::from_str("\u{e9}\u{6f22}\nb");
    let edit = Edit::Replace { start: at(0, 1), end: at(1, 0), with: "xyz".to_string() };
    assert_eq!(
        content_edits_from_buffer_edit(&b, &edit),
        vec![record((2, (0, 2)), (6, (1, 0)), (5, (0, 5)))]
    );
}

#[test]
fn the_record_of_deleted_rows_ends_at_the_row_behind_them() {
    let b = Buffer::from_str("ab\ncd\nef");
    let edit = Edit::DeleteRange { start: at(0, 1), end: at(1, 1), kind: MotionKind::Line };
    assert_eq!(
        content_edits_from_buffer_edit(&b, &edit),
        vec![record((0, (0, 0)), (6, (2, 0)), (0, (0, 0)))]
    );
}

#[test]
fn the_record_of_the_last_row_ends_with_the_text() {
    let b = Buffer::from_str("ab\ncd\nef");
    let edit = Edit::DeleteRange { start: at(2, 0), end: at(2, 0), kind: MotionKind::Line };
    assert_eq!(
        content_edits_from_buffer_edit(&b, &edit),
        vec![record((6, (2, 0)), (8, (3, 0)), (6, (2, 0)))]
    );
}

#[test]
fn the_record_of_a_join_ends_with_the_last_row_that_is_joined() {
    let b = Buffer::from_str("ab\ncd\nef");
    let edit = Edit::JoinLines { row: 0, count: 9, with_space: true };
    assert_eq!(
        content_edits_from_buffer_edit(&b, &edit),
        vec![record((2, (0, 2)), (8, (2, 2)), (3, (0, 3)))]
    );
}

#[test]
fn a_split_has_a_record_for_each_column() {
    let b = Buffer::from_str("a\nbcd");
    let edit = Edit::SplitLines { row: 1, cols: vec![1, 2], inserted_space: true };
    assert_eq!(
        content_edits_from_buffer_edit(&b, &edit),
        vec![
            record((3, (1, 1)), (3, (1, 1)), (5, (2, 1))),
            record((4, (1, 2)), (4, (1, 2)), (6, (2, 1))),
        ]
    );
}

#[test]
fn a_block_has_a_record_for_each_row_that_changes() {
    let b = Buffer::from_str("abc\nd\nefg");
    let edit = Edit::DeleteRange { start: at(0, 1), end: at(2, 2), kind: MotionKind::Block };
    assert_eq!(
        content_edits_from_buffer_edit(&b, &edit),
        vec![
            record((1, (0, 1)), (3, (0, 3)), (1, (0, 1))),
            record((7, (2, 1)), (9, (2, 3)), (7, (2, 1))),
        ]
    );
}

#[test]
fn edit_records_of_joins_and_splits() {
    let ops = edit_to_editops(&Edit::JoinLines { row: 1, count: 2, with_space: true });
    assert_eq!(ops.len(), 1);
    assert_eq!(ops[0].range, Pos::new(2, 0)..Pos::new(3, u32::MAX));
    assert_eq!(ops[0].replacement, " ");
    let ops =
        edit_to_editops(&Edit::SplitLines { row: 1, cols: vec![2, 5], inserted_space: false });
    assert_eq!(ops.len(), 2);
    assert_eq!(ops[1].range, Pos::new(1, 5)..Pos::new(1, 5));
    assert_eq!(ops[1].replacement, "\n");
}

// ── What moves with an edit ──────────────────────────────────────────

#[test]
fn a_mark_stays_with_its_line() {
    let mut e = editor("a\nb\nc");
    e.set_mark('m', (2, 0));
    let _ = e.mutate_edit(Edit::InsertStr { at: at(0, 0), text: "x\ny\n".to_string() });
    assert_eq!(e.mark('m'), Some((4, 0)));
    e.jump_cursor(0, 0);
    let edit = Edit::DeleteRange { start: at(0, 0), end: at(1, 0), kind: MotionKind::Line };
    let _ = e.mutate_edit(edit);
    assert_eq!(e.content(), "a\nb\nc\n");
    assert_eq!(e.mark('m'), Some((2, 0)));
}

#[test]
fn marks_move_with_the_edit_wherever_the_cursor_is() {
    let mut e = editor("a\nb\nc\nd\ne");
    for (name, row) in [('a', 0), ('b', 1), ('c', 2), ('d', 3), ('e', 4)] {
        e.set_mark(name, (row, 0));
    }
    e.jump_cursor(4, 0);
    // Row 2 goes.
    let edit = Edit::DeleteRange { start: at(2, 0), end: at(2, 0), kind: MotionKind::Line };
    let _ = e.mutate_edit(edit);
    assert_eq!(e.marks(), vec![('a', (0, 0)), ('b', (1, 0)), ('d', (2, 0)), ('e', (3, 0))]);
    // The row of `d` is joined to that of `b`, which stays.
    e.jump_cursor(0, 0);
    let _ = e.mutate_edit(Edit::JoinLines { row: 1, count: 1, with_space: true });
    assert_eq!(e.content(), "a\nb d\ne\n");
    assert_eq!(e.marks(), vec![('a', (0, 0)), ('b', (1, 0)), ('e', (2, 0))]);
    // A range of characters over two rows leaves the first of them.
    let edit = Edit::DeleteRange { start: at(0, 1), end: at(1, 2), kind: MotionKind::Char };
    let _ = e.mutate_edit(edit);
    assert_eq!(e.content(), "ad\ne\n");
    assert_eq!(e.marks(), vec![('a', (0, 0)), ('e', (1, 0))]);
    // A replacement with more rows, and one with fewer.
    e.jump_cursor(1, 0);
    let edit = Edit::Replace { start: at(0, 0), end: at(0, 1), with: "1\n2\n3".to_string() };
    let _ = e.mutate_edit(edit);
    assert_eq!(e.content(), "1\n2\n3d\ne\n");
    assert_eq!(e.mark('e'), Some((3, 0)));
    let edit = Edit::Replace { start: at(0, 0), end: at(2, 0), with: "x".to_string() };
    let _ = e.mutate_edit(edit);
    assert_eq!(e.content(), "x3d\ne\n");
    assert_eq!(e.marks(), vec![('a', (0, 0)), ('e', (1, 0))]);
}

#[test]
fn a_mark_on_a_deleted_row_goes() {
    let mut e = editor("a\nb\nc");
    e.set_mark('m', (1, 0));
    e.set_mark('n', (2, 3));
    let edit = Edit::DeleteRange { start: at(0, 0), end: at(1, 0), kind: MotionKind::Line };
    let _ = e.mutate_edit(edit);
    assert_eq!(e.mark('m'), None);
    assert_eq!(e.mark('n'), Some((0, 3)));
}

#[test]
fn a_completion_takes_letters_of_every_script() {
    let mut e = editor("x \u{e9}_1");
    e.jump_cursor(0, 5);
    e.accept_completion("done");
    assert_eq!(e.content(), "x done\n");
}

#[test]
fn a_register_that_is_missing_is_passed_over() {
    let mut e = editor("a");
    e.set_named_register_text('B', "text".to_string());
    assert_eq!(e.registers().named[1].text, "text");
    assert!(!e.registers().named[1].linewise);
    e.registers.named.clear();
    e.set_named_register_text('b', "more".to_string());
    e.set_named_register_text('1', "more".to_string());
    assert!(e.registers().named.is_empty());
}

// ── Logged changes and history ───────────────────────────────────────

#[test]
fn a_logged_change_makes_the_same_text() {
    let text = "ab\ncd\nef";
    let edits = vec![
        Edit::InsertChar { at: at(1, 1), ch: 'x' },
        Edit::InsertStr { at: at(9, 9), text: "1\n2".to_string() },
        Edit::DeleteRange { start: at(0, 1), end: at(2, 1), kind: MotionKind::Char },
        Edit::DeleteRange { start: at(0, 7), end: at(0, 9), kind: MotionKind::Char },
        Edit::Replace { start: at(0, 2), end: at(1, 1), with: "-\n-".to_string() },
    ];
    for edit in edits {
        let mut e = editor(text);
        let _ = e.mutate_edit(edit);
        let changes = e.take_changes();
        assert_eq!(changes.len(), 1);
        assert!(e.take_changes().is_empty());
        let mut copy = Buffer::from_str(text);
        copy.replace_range(changes[0].range.clone(), changes[0].replacement.as_str());
        assert_eq!(copy.as_string() + "\n", e.content());
    }
}

#[test]
fn undo_and_redo_go_back_and_forth() {
    let mut e = editor("ab\ncd");
    e.jump_cursor(1, 2);
    e.push_undo();
    let _ = e.mutate_edit(Edit::InsertStr { at: at(1, 2), text: "\nxyz".to_string() });
    let after = (e.content(), e.cursor());
    assert_eq!(after, ("ab\ncd\nxyz\n".to_string(), (2, 3)));
    e.undo();
    assert_eq!((e.content(), e.cursor()), ("ab\ncd\n".to_string(), (1, 1)));
    assert_eq!(e.undo_stack_len(), 0);
    e.redo();
    assert_eq!((e.content(), e.cursor()), after);
    assert_eq!(e.undo_stack_len(), 1);
    e.redo();
    assert_eq!((e.content(), e.cursor()), after);
    e.undo();
    e.undo();
    assert_eq!(e.content(), "ab\ncd\n");
}

#[test]
fn the_record_of_a_line_break_ends_on_the_next_row() {
    let b = Buffer::from_str("ab\ncd");
    let records = content_edits_from_buffer_edit(&b, &Edit::InsertChar { at: at(0, 1), ch: '\n' });
    assert_eq!(records.len(), 1);
    assert_eq!(records[0].start_byte, 1);
    assert_eq!(records[0].new_end_byte, 2);
    assert_eq!(records[0].start_position, (0, 1));
    assert_eq!(records[0].old_end_position, (0, 1));
    assert_eq!(records[0].new_end_position, (1, 0));
    let text = Edit::InsertStr { at: at(0, 1), text: "\n".to_string() };
    assert_eq!(records, content_edits_from_buffer_edit(&b, &text));
}

#[test]
fn a_record_says_what_changed() {
    let before = "a\u{e9}b\ncd";
    let edits = vec![
        (Edit::InsertChar { at: at(0, 2), ch: '\u{6f22}' }, "\u{6f22}"),
        (Edit::InsertStr { at: at(1, 1), text: "x\ny".to_string() }, "x\ny"),
        (Edit::DeleteRange { start: at(0, 1), end: at(1, 1), kind: MotionKind::Char }, ""),
        (Edit::Replace { start: at(0, 2), end: at(1, 0), with: "--".to_string() }, "--"),
    ];
    for (edit, put_in) in edits {
        let mut e = editor(before);
        let _ = e.mutate_edit(edit);
        let records = e.take_content_edits();
        assert_eq!(records.len(), 1);
        let r = &records[0];
        let after = format!("{}{}{}", &before[..r.start_byte], put_in, &before[r.old_end_byte..]);
        assert_eq!(e.content(), format!("{after}\n"));
        assert_eq!(r.new_end_byte, r.start_byte + put_in.len());
    }
}

#[test]
fn advancing_goes_in_parts() {
    let start = ByteCoords { byte: 7, position: (2, 3) };
    let all = advance_by_text("ab\n\u{e9}", &start);
    assert_eq!((all.byte, all.position), (12, (3, 2)));
    let first = advance_by_text("ab", &start);
    assert_eq!((first.byte, first.position), (9, (2, 5)));
    let second = advance_by_text("\n\u{e9}", &first);
    assert_eq!((second.byte, second.position), (all.byte, all.position));
    let none = advance_by_text("", &start);
    assert_eq!((none.byte, none.position), (start.byte, start.position));
}

#[test]
fn inserted_text_is_told_to_the_host() {
    let mut e = editor("ab\ncd");
    e.jump_cursor(1, 1);
    e.insert_str("1\n2");
    let changes = e.take_changes();
    assert_eq!(changes.len(), 1);
    assert_eq!(changes[0].range, Pos::new(1, 1)..Pos::new(1, 1));
    assert_eq!(changes[0].replacement, "1\n2");
    let records = e.take_content_edits();
    assert_eq!(records.len(), 1);
    assert_eq!((records[0].start_byte, records[0].old_end_byte), (4, 4));
    assert_eq!(records[0].new_end_byte, 7);
    assert_eq!(records[0].new_end_position, (2, 1));
}

#[test]
fn a_completion_is_told_to_the_host() {
    let before = "x fo y";
    let mut e = editor(before);
    e.jump_cursor(0, 4);
    e.accept_completion("foo");
    assert_eq!(e.content(), "x foo y\n");
    let changes = e.take_changes();
    assert_eq!(changes.len(), 2);
    assert_eq!(changes[0].range, Pos::new(0, 2)..Pos::new(0, 4));
    assert_eq!(changes[0].replacement, "");
    assert_eq!(changes[1].range, Pos::new(0, 2)..Pos::new(0, 2));
    assert_eq!(changes[1].replacement, "foo");
    let mut b = Buffer::from_str(before);
    for c in changes {
        BufferEdit::replace_range(&mut b, c.range, &c.replacement);
    }
    assert_eq!(b.as_string(), "x foo y");
    let records = e.take_content_edits();
    assert_eq!(records.len(), 2);
    assert_eq!((records[0].start_byte, records[0].old_end_byte, records[0].new_end_byte), (2, 4, 2));
    assert_eq!((records[1].start_byte, records[1].old_end_byte, records[1].new_end_byte), (2, 2, 5));
    // Without a word before the cursor there is only the completion.
    e.jump_cursor(0, 0);
    e.accept_completion("z");
    assert_eq!(e.take_changes().len(), 1);
    assert_eq!(e.take_content_edits().len(), 1);
}
