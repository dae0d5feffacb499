//! What edits promise of the editor around the text: what is noted of them, and
//! what typing, completing and undoing leave.
use hjkl_buffer::Buffer as RopeBuffer;
use vstd::prelude::*;

use crate::buffer;
use crate::buffer::Edit;
use crate::buffer_impl;
use crate::editing;
use crate::editor::Editor;
use crate::edits;
use crate::fold_laws;
use crate::folds::FoldOp;
use crate::marks;
use crate::marks::RowShift;
use crate::rope;
use crate::surface::{Cursor, Query};
use crate::text;
use crate::text_laws;
use crate::types::Host;

verus! {

/// A text of as many lines and columns as 32 bits count, with the cursor in it.
pub open spec fn countable(b: RopeBuffer) -> bool {
    &&& 0 < rope::buffer_lines(b).len() <= u32::MAX
    &&& buffer::in_text(rope::buffer_lines(b), rope::buffer_cursor(b))
    &&& forall|i: int|
        0 <= i < rope::buffer_lines(b).len() ==> (#[trigger] rope::buffer_lines(b)[i]).len()
            <= u32::MAX
}

/// Edits of an editor that refuses them change nothing at all.
pub proof fn law_refused_edits_change_nothing<H: Host>(
    b: Editor<RopeBuffer, H>,
    a: Editor<RopeBuffer, H>,
    edit: Edit,
    back: Edit,
    t: Seq<char>,
)
    requires
        b.settings.readonly,
        editing::mutated(b, a, edit, back) || editing::typed_in(b, a, t) || editing::completed(
            b,
            a,
            t,
        ),
    ensures
        a == b,
{
}

/// An edit that goes through leaves its traces: the text is dirty and no longer
/// shared, the cursor's place is the place of the last edit and the latest entry
/// of the change list, and the folds between the rows of the cursor before and
/// after it are gone, there and for the host. Mode, registers, settings and both
/// histories stay.
pub proof fn law_edits_leave_traces<H: Host>(
    b: Editor<RopeBuffer, H>,
    a: Editor<RopeBuffer, H>,
    edit: Edit,
    back: Edit,
    f: (int, int, bool),
)
    requires
        editing::mutated(b, a, edit, back),
        !b.settings.readonly,
        countable(b.buffer),
        rope::buffer_lines(a.buffer).len() <= u32::MAX,
        rope::buffer_cursor(a.buffer).0 <= u32::MAX,
    ensures
        a.content_dirty,
        a.cached_content is None,
        a.vim.last_edit_pos == Some((a.buffer.at().line as usize, a.buffer.at().col as usize)),
        a.vim.change_list@.len() > 0,
        Some(a.vim.change_list@.last()) == a.vim.last_edit_pos,
        a.vim.mode == b.vim.mode,
        a.undo_stack == b.undo_stack && a.redo_stack == b.redo_stack,
        a.registers == b.registers && a.settings == b.settings,
        ({
            let x = rope::buffer_cursor(b.buffer).0;
            let y = rope::buffer_cursor(a.buffer).0;
            let now = rope::buffer_folds(a.buffer);
            let was = rope::buffer_folds(b.buffer);
            &&& 0 <= y ==> (now.contains(f) <==> was.contains(f) && (f.1 < x && f.1 < y || f.0 > x
                && f.0 > y))
            &&& a.pending_fold_ops@.len() == b.pending_fold_ops@.len() + 1
            &&& 0 <= y ==> (a.pending_fold_ops@.last() matches FoldOp::Invalidate {
                start_row,
                end_row,
            } && (start_row == x && end_row == y && x <= y || start_row == y && end_row == x && y
                <= x))
        }),
{
    let lines = rope::buffer_lines(b.buffer);
    let x = rope::buffer_cursor(b.buffer).0;
    let y = rope::buffer_cursor(a.buffer).0;
    let op = editing::fold_op_after(b.buffer.at(), a.buffer.at());
    if 0 <= y {
        assert(b.buffer.at().line == x);
        assert(a.buffer.at().line == y);
        let lo = if x <= y { x } else { y };
        let hi = if x <= y { y } else { x };
        fold_laws::lemma_outside(
            rope::buffer_folds(b.buffer),
            (lo as usize) as int,
            (hi as usize) as int,
            f,
        );
    }
}

/// The places to jump to move with the rows as marks do: where a mark stands at a
/// place to jump to and an edit leaves the mark, the place goes with it.
pub proof fn law_jumps_follow_marks<H: Host>(
    b: Editor<RopeBuffer, H>,
    a: Editor<RopeBuffer, H>,
    edit: Edit,
    back: Edit,
    c: char,
)
    requires
        editing::mutated(b, a, edit, back),
        b.marks@.dom().contains(c),
        a.marks@.dom().contains(c),
    ensures
        b.vim.jump_back@.contains(b.marks@[c]) ==> a.vim.jump_back@.contains(a.marks@[c]),
        b.vim.jump_fwd@.contains(b.marks@[c]) ==> a.vim.jump_fwd@.contains(a.marks@[c]),
{
    if !b.settings.readonly {
        let shift = editing::shift_after(
            rope::buffer_lines(b.buffer),
            edits::edit_view(edit),
            rope::buffer_lines(a.buffer),
        );
        if shift.by != 0 {
            if b.vim.jump_back@.contains(b.marks@[c]) {
                lemma_moved_place(b.vim.jump_back@, shift, b.marks@[c]);
            }
            if b.vim.jump_fwd@.contains(b.marks@[c]) {
                lemma_moved_place(b.vim.jump_fwd@, shift, b.marks@[c]);
            }
        }
    }
}

proof fn lemma_moved_place(s: Seq<(usize, usize)>, shift: RowShift, p: (usize, usize))
    requires
        shift.row(p.0) is Some,
        s.contains(p),
    ensures
        marks::shifted_places(s, shift).contains((shift.row(p.0)->0, p.1)),
    decreases s.len(),
{
    let to = (shift.row(p.0)->0, p.1);
    let head = marks::shifted_places(s.drop_last(), shift);
    let all = marks::shifted_places(s, shift);
    let i = s.index_of(p);
    if i == s.len() - 1 {
        assert(s.last() == p);
        assert(all.last() == to);
        assert(all[all.len() - 1] == to);
    } else {
        assert(s.drop_last()[i] == p);
        lemma_moved_place(s.drop_last(), shift, p);
        let k = head.index_of(to);
        assert(all[k] == to);
    }
}

/// Places to jump to are only moved or dropped: there are no more than before, and
/// each that is left keeps its column and comes from an entry of the list.
pub proof fn law_jumps_come_from_jumps(s: Seq<(usize, usize)>, shift: RowShift, k: int)
    requires
        0 <= k < marks::shifted_places(s, shift).len(),
    ensures
        marks::shifted_places(s, shift).len() <= s.len(),
        exists|i: int|
            0 <= i < s.len() && (#[trigger] s[i]).1 == marks::shifted_places(s, shift)[k].1
                && shift.row(s[i].0) == Some(marks::shifted_places(s, shift)[k].0),
    decreases s.len(),
{
    lemma_fewer(s, shift);
    let head = marks::shifted_places(s.drop_last(), shift);
    if k < head.len() {
        law_jumps_come_from_jumps(s.drop_last(), shift, k);
        let i = choose|i: int|
            0 <= i < s.drop_last().len() && (#[trigger] s.drop_last()[i]).1 == head[k].1
                && shift.row(s.drop_last()[i].0) == Some(head[k].0);
        assert(s[i] == s.drop_last()[i]);
    } else {
        assert(s[s.len() - 1] == s.last());
    }
}

proof fn lemma_fewer(s: Seq<(usize, usize)>, shift: RowShift)
    ensures
        marks::shifted_places(s, shift).len() <= s.len(),
    decreases s.len(),
{
    if s.len() > 0 {
        lemma_fewer(s.drop_last(), shift);
    }
}

/// Rows above the place of an edit stay; rows that come push the rows below them
/// down by as many; rows that go take what stood on them along, and what stood
/// below them moves up by as many.
pub proof fn law_rows_shift(shift: RowShift, row: usize)
    requires
        shift.start + shift.by <= usize::MAX,
    ensures
        row < shift.start ==> shift.row(row) == Some(row),
        !shift.removed && row == shift.start ==> shift.row(row) == Some(row),
        !shift.removed && row > shift.start && row + shift.by <= usize::MAX ==> shift.row(row)
            == Some((row + shift.by) as usize),
        shift.removed && shift.start <= row < shift.start + shift.by ==> shift.row(row) is None,
        shift.removed && row > shift.start && row >= shift.start + shift.by ==> shift.row(row)
            == Some((row - shift.by) as usize),
{
}

/// A text is typed in right before the cursor: the cursor's row is what stood
/// before the cursor, the text, and what stood behind it, broken where the text has
/// line breaks, and every other row stays. The cursor ends up behind the text.
pub proof fn law_typed_text_goes_in_at_the_cursor<H: Host>(
    b: Editor<RopeBuffer, H>,
    a: Editor<RopeBuffer, H>,
    t: Seq<char>,
)
    requires
        editing::typed_in(b, a, t),
        !b.settings.readonly,
        countable(b.buffer),
    ensures
        ({
            let was = rope::buffer_lines(b.buffer);
            let (row, col) = rope::buffer_cursor(b.buffer);
            let line = was[row];
            &&& rope::buffer_lines(a.buffer) == was.take(row) + buffer::split_text(
                line.take(col) + t + line.skip(col),
            ) + was.skip(row + 1)
            &&& !t.contains('\n') && !line.contains('\n') ==> rope::buffer_lines(a.buffer)
                == was.update(row, line.take(col) + t + line.skip(col)) && rope::buffer_cursor(
                a.buffer,
            ) == (row, (col + t.len()) as int)
        }),
        a.content_dirty && a.cached_content is None,
        a.vim == b.vim && a.undo_stack == b.undo_stack && a.marks == b.marks,
{
    let was = rope::buffer_lines(b.buffer);
    let (row, col) = rope::buffer_cursor(b.buffer);
    let line = was[row];
    assert(buffer::clamp(was, (row, col)) == (row, col));
    if !t.contains('\n') && !line.contains('\n') {
        text_laws::lemma_one_piece(t);
        lemma_whole_line(was, row, col, t);
    }
}

/// A line with a text put in that has no line break stays one line.
proof fn lemma_whole_line(was: Seq<Seq<char>>, row: int, col: int, t: Seq<char>)
    requires
        buffer::in_text(was, (row, col)),
        !t.contains('\n'),
        !was[row].contains('\n'),
    ensures
        ({
            let full = was[row].take(col) + t + was[row].skip(col);
            was.take(row) + buffer::split_text(full) + was.skip(row + 1) == was.update(row, full)
        }),
{
    let line = was[row];
    let full = line.take(col) + t + line.skip(col);
    assert forall|i: int| 0 <= i < full.len() implies #[trigger] full[i] != '\n' by {
        if i < col {
            assert(full[i] == line[i]);
        } else if i < col + t.len() {
            assert(full[i] == t[i - col]);
        } else {
            assert(full[i] == line[i - t.len()]);
        }
    }
    text_laws::lemma_one_piece(full);
    assert(was.take(row) + seq![full] + was.skip(row + 1) =~= was.update(row, full));
}

/// A character that belongs to the word that a completion takes the place of.
pub open spec fn in_word(c: char) -> bool {
    c == '_' || text::alphanumeric(c)
}

/// The `n` characters before column `col` are the part of a word before it.
pub open spec fn word_reaches_back(line: Seq<char>, col: int, n: int) -> bool {
    &&& 0 <= n <= col
    &&& forall|k: int| col - n <= k < col ==> in_word(#[trigger] line[k])
    &&& n == col || !in_word(line[col - n - 1])
}

proof fn lemma_word_before(line: Seq<char>, col: int, n: int)
    requires
        0 <= col <= line.len(),
        word_reaches_back(line, col, n),
    ensures
        editing::word_before(line, col) == n,
    decreases n,
{
    if n > 0 {
        assert(in_word(line[col - 1]));
        assert(word_reaches_back(line, col - 1, n - 1));
        lemma_word_before(line, col - 1, n - 1);
    }
}

/// A completion takes the place of the word before the cursor, back to the first
/// character that is no letter, digit or underscore, and of nothing else; without
/// such a word it goes in at the cursor.
pub proof fn law_completion_replaces_the_word<H: Host>(
    b: Editor<RopeBuffer, H>,
    a: Editor<RopeBuffer, H>,
    t: Seq<char>,
    n: int,
)
    requires
        editing::completed(b, a, t),
        !b.settings.readonly,
        countable(b.buffer),
        rope::buffer_lines(b.buffer).len() < u32::MAX,
        word_reaches_back(
            rope::buffer_lines(b.buffer)[rope::buffer_cursor(b.buffer).0],
            rope::buffer_cursor(b.buffer).1,
            n,
        ),
    ensures
        ({
            let was = rope::buffer_lines(b.buffer);
            let (row, col) = rope::buffer_cursor(b.buffer);
            let line = was[row];
            let full = line.take(col - n) + t + line.skip(col);
            &&& rope::buffer_lines(a.buffer) == was.take(row) + buffer::split_text(full)
                + was.skip(row + 1)
            &&& !t.contains('\n') && !line.contains('\n') ==> rope::buffer_lines(a.buffer)
                == was.update(row, full) && rope::buffer_cursor(a.buffer) == (
                row,
                (col - n + t.len()) as int,
            )
        }),
        a.content_dirty && a.cached_content is None,
        a.vim == b.vim && a.undo_stack == b.undo_stack && a.marks == b.marks,
{
    let was = rope::buffer_lines(b.buffer);
    let (row, col) = rope::buffer_cursor(b.buffer);
    let line = was[row];
    let full = line.take(col - n) + t + line.skip(col);
    assert(b.buffer.rows()[row] == line);
    lemma_word_before(line, col, n);
    assert(buffer::clamp(was, (row, col)) == (row, col));
    assert(buffer::clamp(was, (row, col - n)) == (row, col - n));
    let rest = if n > 0 {
        buffer::cut(was, (row, col - n), (row, col))
    } else {
        was
    };
    let short = line.take(col - n) + line.skip(col);
    if n > 0 {
        assert(rest =~= was.update(row, short));
        assert(rest[row].len() < was[row].len());
        assert(rest != was);
    } else {
        assert(short =~= line);
    }
    assert(rest[row] == short);
    assert(buffer::clamp(rest, (row, col - n)) == (row, col - n));
    assert(short.take(col - n) =~= line.take(col - n));
    assert(short.skip(col - n) =~= line.skip(col));
    assert(rest.take(row) =~= was.take(row));
    assert(rest.skip(row + 1) =~= was.skip(row + 1));
    if !t.contains('\n') && !line.contains('\n') {
        assert forall|i: int| 0 <= i < short.len() implies #[trigger] short[i] != '\n' by {
            if i < col - n {
                assert(short[i] == line[i]);
            } else {
                assert(short[i] == line[i + n]);
            }
        }
        text_laws::lemma_one_piece(t);
        lemma_whole_line(rest, row, col - n, t);
        assert(rest.update(row, full) =~= was.update(row, full));
    }
}

/// An undo with an entry brings its text back, leaves the cursor on a character of
/// it, at the kept place where that is one, and goes to normal mode; what it took
/// away waits for a redo. Without an entry the text and both histories stay.
pub proof fn law_undo_brings_the_text_back<H: Host>(
    b: Editor<RopeBuffer, H>,
    a: Editor<RopeBuffer, H>,
    lines: Seq<Seq<char>>,
    at: (usize, usize),
)
    requires
        editing::undone(b, a),
        b.undo_stack@.len() > 0 ==> editing::entry_view(b.undo_stack@.last()) == (lines, at),
        edits::clean(lines),
        0 < lines.len() <= u32::MAX,
        at.0 < lines.len(),
        at.1 < u32::MAX,
        lines[at.0 as int].len() <= u32::MAX,
    ensures
        a.vim.mode is Normal,
        b.undo_stack@.len() == 0 ==> rope::buffer_lines(a.buffer) == rope::buffer_lines(b.buffer)
            && a.undo_stack@.len() == 0 && a.redo_stack@ == b.redo_stack@,
        b.undo_stack@.len() > 0 ==> {
            let line = lines[at.0 as int];
            &&& rope::buffer_lines(a.buffer) == lines
            &&& a.undo_stack@.len() == b.undo_stack@.len() - 1
            &&& a.redo_stack@.len() == b.redo_stack@.len() + 1
            &&& editing::entry_view(a.redo_stack@.last()) == editing::entry_of(b.buffer)
            &&& a.content_dirty
            &&& a.buffer.at().line == at.0
            &&& at.1 < line.len() ==> a.buffer.at().col == at.1
            &&& at.1 >= line.len() && line.len() > 0 ==> a.buffer.at().col == line.len() - 1
            &&& line.len() == 0 ==> a.buffer.at().col == 0
        },
{
    if b.undo_stack@.len() > 0 {
        edits::lemma_split_join(lines);
        assert(buffer_impl::shown_rows(lines) =~= lines);
        let r = editing::entry_views(a.redo_stack@);
        assert(r.len() == b.redo_stack@.len() + 1);
        assert(r.last() == editing::entry_view(a.redo_stack@.last()));
    }
}

/// The cursor that is moved back for normal mode stays on its row; it stays where it
/// is on a character, and goes to the last character from behind it.
pub proof fn law_normal_cursor_is_on_a_character(b: RopeBuffer)
    requires
        countable(b),
    ensures
        ({
            let (row, col) = rope::buffer_cursor(b);
            let line = rope::buffer_lines(b)[row];
            let p = editing::normal_cursor(b);
            &&& p.line == row
            &&& col < line.len() ==> p.col == col
            &&& col >= line.len() && line.len() > 0 ==> p.col == line.len() - 1
            &&& line.len() == 0 ==> p.col == 0
        }),
{
    assert(b.rows() =~= rope::buffer_lines(b));
}

/// A mark below a row that is split stays with its line, and a mark on the row
/// stays on its first part.
pub proof fn law_marks_follow_split(
    lines: Seq<Seq<char>>,
    first: int,
    cols: Seq<usize>,
    space: bool,
    row: usize,
)
    requires
        0 <= first < lines.len(),
        lines.len() + cols.len() <= usize::MAX,
        row < lines.len(),
    ensures
        ({
            let e = edits::EditView::SplitLines { row: first, cols, inserted_space: space };
            let after = edits::applied(lines, e).0;
            let shift = editing::shift_after(lines, e, after);
            &&& shift.row(row) is Some
            &&& (shift.row(row)->0) < after.len()
            &&& row == first ==> shift.row(row) == Some(row)
            &&& row != first ==> after[(shift.row(row)->0) as int] == lines[row as int]
        }),
{
    lemma_pieces_of_a_split(lines[first], cols, space);
}

proof fn lemma_pieces_of_a_split(line: Seq<char>, cols: Seq<usize>, space: bool)
    ensures
        buffer::split_at_cols(line, cols, space).len() == cols.len() + 1,
    decreases cols.len(),
{
    if cols.len() > 0 {
        let col = text::min(cols.last() as int, line.len() as int);
        lemma_pieces_of_a_split(line.take(col), cols.drop_last(), space);
    }
}

/// Every change gives a buffer a new generation, one further than before until the
/// numbers run out.
pub proof fn law_generations_differ(g: u64)
    ensures
        buffer::bumped(g) != g,
        g < u64::MAX ==> buffer::bumped(g) == g + 1,
{
}

/// A redo with an entry brings its text back and goes to normal mode; what it took
/// away is the latest undo entry, and the history stays within its limit. Without an
/// entry only the mode changes.
pub proof fn law_redo_brings_the_text_back<H: Host>(
    b: Editor<RopeBuffer, H>,
    a: Editor<RopeBuffer, H>,
    lines: Seq<Seq<char>>,
    at: (usize, usize),
)
    requires
        editing::redone(b, a),
        b.redo_stack@.len() > 0 ==> editing::entry_view(b.redo_stack@.last()) == (lines, at),
        edits::clean(lines),
        0 < lines.len() <= u32::MAX,
        at.0 < lines.len(),
        at.1 <= lines[at.0 as int].len() <= u32::MAX,
    ensures
        a.vim.mode is Normal,
        b.redo_stack@.len() == 0 ==> a.buffer == b.buffer && a.undo_stack == b.undo_stack
            && a.redo_stack@.len() == 0,
        b.redo_stack@.len() > 0 ==> {
            let was = editing::entry_views(b.undo_stack@);
            let now = editing::entry_views(a.undo_stack@);
            let limit = b.settings.undo_levels;
            &&& rope::buffer_lines(a.buffer) == lines
            &&& rope::buffer_cursor(a.buffer) == (at.0 as int, at.1 as int)
            &&& a.redo_stack@.len() == b.redo_stack@.len() - 1
            &&& now.len() > 0 && now.last() == editing::entry_of(b.buffer)
            &&& limit == 0 || was.len() < limit ==> now == was.push(editing::entry_of(b.buffer))
            &&& limit > 0 ==> now.len() <= limit
            &&& a.content_dirty
        },
{
    if b.redo_stack@.len() > 0 {
        edits::lemma_split_join(lines);
    }
}

} // verus!
