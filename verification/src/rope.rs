//! The text store: `hjkl_buffer::Buffer`, seen through plain values.
//!
//! The buffer itself is opaque here. Four names say what a buffer holds: its
//! lines, its cursor, its folds and its generation counter. Every call into
//! the buffer stands in a small function of this module whose contract speaks
//! of those names; the rest of the library is proved against them.
use vstd::prelude::*;

use crate::buffer;
use crate::buffer::{Fold, Position, Wrap};
use crate::text;

verus! {

/// `hjkl_buffer::Buffer`, the rope-shaped text store.
#[verifier::external_type_specification]
#[verifier::external_body]
pub struct ExRope(hjkl_buffer::Buffer);

/// The lines a buffer holds, without their line breaks.
pub uninterp spec fn buffer_lines(b: hjkl_buffer::Buffer) -> Seq<Seq<char>>;

/// The cursor of a buffer as row and column.
pub uninterp spec fn buffer_cursor(b: hjkl_buffer::Buffer) -> (int, int);

/// The folds of a buffer in order: first row, last row, closed or open.
pub uninterp spec fn buffer_folds(b: hjkl_buffer::Buffer) -> Seq<(int, int, bool)>;

/// The generation counter of a buffer, bumped by every change.
pub uninterp spec fn buffer_gen(b: hjkl_buffer::Buffer) -> u64;

/// Everything about a buffer but its cursor is as it was.
pub open spec fn only_cursor_moved(b: hjkl_buffer::Buffer, a: hjkl_buffer::Buffer) -> bool {
    &&& buffer_lines(a) == buffer_lines(b)
    &&& buffer_folds(a) == buffer_folds(b)
    &&& buffer_gen(a) == buffer_gen(b)
}

/// Everything about a buffer but its folds and its generation is as it was.
pub open spec fn only_folds_changed(b: hjkl_buffer::Buffer, a: hjkl_buffer::Buffer) -> bool {
    &&& buffer_lines(a) == buffer_lines(b)
    &&& buffer_cursor(a) == buffer_cursor(b)
}

/// An edit left `lines` in the buffer and put the cursor at the place closest
/// to `at`; it counts as one change and leaves the folds alone.
pub open spec fn edited(
    b: hjkl_buffer::Buffer,
    a: hjkl_buffer::Buffer,
    lines: Seq<Seq<char>>,
    at: (int, int),
) -> bool {
    &&& buffer_lines(a) == lines
    &&& buffer_cursor(a) == buffer::clamp(lines, at)
    &&& buffer_folds(a) == buffer_folds(b)
    &&& buffer_gen(a) == buffer::bumped(buffer_gen(b))
}

/// The generation after a call that may have changed the folds: one more
/// where the list is not what it was.
pub open spec fn gen_follows_folds(b: hjkl_buffer::Buffer, a: hjkl_buffer::Buffer) -> bool {
    buffer_gen(a) == if buffer_folds(a) == buffer_folds(b) {
        buffer_gen(b)
    } else {
        buffer::bumped(buffer_gen(b))
    }
}

// ── Reading ─────────────────────────────────────────────────────────

/// `hjkl_buffer::Buffer::row_count`: the number of lines, never zero. No line
/// holds a line break, for every text that comes in is split at them. The
/// lines are strings in memory, so their bytes together, with one more for
/// each line, fit in a `usize`.
#[verifier::external_body]
pub(crate) fn rope_row_count(b: &hjkl_buffer::Buffer) -> (n: usize)
    ensures
        n == buffer_lines(*b).len(),
        n >= 1,
        forall|i: int| 0 <= i < n ==> !(#[trigger] buffer_lines(*b)[i]).contains('\n'),
        buffer::bytes_above(buffer_lines(*b), n as int) <= usize::MAX,
{
    b.row_count()
}

/// `hjkl_buffer::Buffer::line`: the line at `row`.
#[verifier::external_body]
pub(crate) fn rope_line(b: &hjkl_buffer::Buffer, row: usize) -> (line: Option<&str>)
    ensures
        match line {
            Some(s) => row < buffer_lines(*b).len() && s@ == buffer_lines(*b)[row as int],
            None => row >= buffer_lines(*b).len(),
        },
{
    b.line(row)
}

/// `hjkl_buffer::Buffer::cursor`: the cursor, which always lies on a line of
/// the buffer, at most one column past its last character.
#[verifier::external_body]
pub(crate) fn rope_cursor(b: &hjkl_buffer::Buffer) -> (p: Position)
    ensures
        p.spot() == buffer_cursor(*b),
        p.row < buffer_lines(*b).len(),
        p.col <= buffer_lines(*b)[p.row as int].len(),
{
    let p = b.cursor();
    Position { row: p.row, col: p.col }
}

/// `hjkl_buffer::Buffer::dirty_gen`: the generation counter.
#[verifier::external_body]
pub(crate) fn rope_gen(b: &hjkl_buffer::Buffer) -> (g: u64)
    ensures
        g == buffer_gen(*b),
{
    b.dirty_gen()
}

/// `hjkl_buffer::Buffer::clamp_position`: the place closest to `p`.
#[verifier::external_body]
pub(crate) fn rope_clamp(b: &hjkl_buffer::Buffer, p: Position) -> (q: Position)
    ensures
        q.spot() == buffer::clamp(buffer_lines(*b), p.spot()),
        q.row < buffer_lines(*b).len(),
{
    let q = b.clamp_position(hjkl_buffer::Position::new(p.row, p.col));
    Position { row: q.row, col: q.col }
}

/// `hjkl_buffer::Position::byte_offset`: the byte at which column `col` of
/// `line` starts, or the length of the line for a column at or past its end.
#[verifier::external_body]
pub(crate) fn byte_offset(line: &str, col: usize) -> (n: usize)
    ensures
        n == text::byte_len(line@.take(text::min(col as int, line@.len() as int))),
{
    hjkl_buffer::Position::new(0, col).byte_offset(line)
}

// ── Writing ─────────────────────────────────────────────────────────

/// `hjkl_buffer::Buffer::set_cursor`: the cursor goes to the place closest to
/// `p`; nothing else changes.
#[verifier::external_body]
pub(crate) fn rope_set_cursor(b: &mut hjkl_buffer::Buffer, p: Position)
    ensures
        buffer_cursor(*final(b)) == buffer::clamp(buffer_lines(*old(b)), p.spot()),
        only_cursor_moved(*old(b), *final(b)),
{
    b.set_cursor(hjkl_buffer::Position::new(p.row, p.col))
}

/// `hjkl_buffer::Buffer::replace_all`: the lines become the pieces of `t`; the
/// cursor moves to the closest place that is left.
#[verifier::external_body]
pub(crate) fn rope_replace_all(b: &mut hjkl_buffer::Buffer, t: &str)
    ensures
        edited(*old(b), *final(b), buffer::split_text(t@), buffer_cursor(*old(b))),
{
    b.replace_all(t)
}

/// `hjkl_buffer::Buffer::apply_edit` on an insertion: `t` is inserted at the
/// place closest to `at`, and the cursor ends behind it. The result is the
/// range of the inverse deletion, `None` never.
#[verifier::external_body]
pub(crate) fn rope_insert(b: &mut hjkl_buffer::Buffer, at: Position, t: String) -> (r: Option<
    (Position, Position),
>)
    ensures
        edited(
            *old(b),
            *final(b),
            buffer::insertion(buffer_lines(*old(b)), at.spot(), t@).0,
            buffer::insertion(buffer_lines(*old(b)), at.spot(), t@).2,
        ),
        r is Some,
        (r->0).0.spot() == buffer::insertion(buffer_lines(*old(b)), at.spot(), t@).1,
        (r->0).1.spot() == buffer::insertion(buffer_lines(*old(b)), at.spot(), t@).2,
{
    let at = hjkl_buffer::Position::new(at.row, at.col);
    match b.apply_edit(hjkl_buffer::Edit::InsertStr { at, text: t }) {
        hjkl_buffer::Edit::DeleteRange { start, end, .. } => Some(
            (
                Position { row: start.row, col: start.col },
                Position { row: end.row, col: end.col },
            ),
        ),
        _ => None,
    }
}

/// `hjkl_buffer::Buffer::apply_edit` on a charwise deletion: the text between
/// the two places goes, and the cursor ends at the earlier one. The result is
/// the place and the text of the inverse insertion, `None` never. A row past
/// the last would panic.
#[verifier::external_body]
pub(crate) fn rope_delete_chars(
    b: &mut hjkl_buffer::Buffer,
    start: Position,
    end: Position,
) -> (r: Option<(Position, String)>)
    requires
        start.row < buffer_lines(*old(b)).len(),
        end.row < buffer_lines(*old(b)).len(),
    ensures
        edited(
            *old(b),
            *final(b),
            buffer::cut(
                buffer_lines(*old(b)),
                buffer::earlier(start.spot(), end.spot()),
                buffer::later(start.spot(), end.spot()),
            ),
            buffer::earlier(start.spot(), end.spot()),
        ),
        r is Some,
        (r->0).0.spot() == buffer::earlier(start.spot(), end.spot()),
        (r->0).1@ == buffer::text_between(
            buffer_lines(*old(b)),
            buffer::earlier(start.spot(), end.spot()),
            buffer::later(start.spot(), end.spot()),
        ),
{
    let start = hjkl_buffer::Position::new(start.row, start.col);
    let end = hjkl_buffer::Position::new(end.row, end.col);
    let kind = hjkl_buffer::MotionKind::Char;
    match b.apply_edit(hjkl_buffer::Edit::DeleteRange { start, end, kind }) {
        hjkl_buffer::Edit::InsertStr { at, text } => Some(
            (Position { row: at.row, col: at.col }, text),
        ),
        _ => None,
    }
}

/// `hjkl_buffer::Buffer::apply_edit` on a linewise deletion: the rows between
/// the two places go, and the cursor ends at column 0 of the row that moved
/// up. The result is the place and the text of the inverse insertion, `None`
/// never. A first row more than one past the last would panic.
#[verifier::external_body]
pub(crate) fn rope_delete_rows(
    b: &mut hjkl_buffer::Buffer,
    start: Position,
    end: Position,
) -> (r: Option<(Position, String)>)
    requires
        text::min(start.row as int, end.row as int) <= buffer_lines(*old(b)).len(),
    ensures
        edited(
            *old(b),
            *final(b),
            buffer::rows_removed(
                buffer_lines(*old(b)),
                text::min(start.row as int, end.row as int),
                text::max(start.row as int, end.row as int),
            ),
            (text::min(start.row as int, end.row as int), 0int),
        ),
        r is Some,
        (r->0).0.spot() == (text::min(start.row as int, end.row as int), 0int),
        (r->0).1@ == buffer::rows_text(
            buffer_lines(*old(b)),
            text::min(start.row as int, end.row as int),
            text::max(start.row as int, end.row as int),
        ),
{
    let start = hjkl_buffer::Position::new(start.row, start.col);
    let end = hjkl_buffer::Position::new(end.row, end.col);
    let kind = hjkl_buffer::MotionKind::Line;
    match b.apply_edit(hjkl_buffer::Edit::DeleteRange { start, end, kind }) {
        hjkl_buffer::Edit::InsertStr { at, text } => Some(
            (Position { row: at.row, col: at.col }, text),
        ),
        _ => None,
    }
}

/// `hjkl_buffer::Buffer::apply_edit` on a blockwise deletion: every row
/// between the two places loses the columns between theirs, the last one
/// included, and the cursor ends at the upper left corner. The result is the
/// corner and the chunks of the inverse insertion, `None` never. A row past
/// the last, or a last column that has no successor, would panic.
#[verifier::external_body]
pub(crate) fn rope_delete_block(
    b: &mut hjkl_buffer::Buffer,
    start: Position,
    end: Position,
) -> (r: Option<(Position, Vec<String>)>)
    requires
        start.row < buffer_lines(*old(b)).len(),
        end.row < buffer_lines(*old(b)).len(),
        start.col < usize::MAX,
        end.col < usize::MAX,
    ensures
        edited(
            *old(b),
            *final(b),
            buffer::block_removed(buffer_lines(*old(b)), start.spot(), end.spot()),
            buffer::block_corner(start.spot(), end.spot()),
        ),
        r is Some,
        (r->0).0.spot() == buffer::block_corner(start.spot(), end.spot()),
        buffer::texts((r->0).1@) == buffer::block_text(
            buffer_lines(*old(b)),
            start.spot(),
            end.spot(),
        ),
{
    let start = hjkl_buffer::Position::new(start.row, start.col);
    let end = hjkl_buffer::Position::new(end.row, end.col);
    let kind = hjkl_buffer::MotionKind::Block;
    match b.apply_edit(hjkl_buffer::Edit::DeleteRange { start, end, kind }) {
        hjkl_buffer::Edit::InsertBlock { at, chunks } => Some(
            (Position { row: at.row, col: at.col }, chunks),
        ),
        _ => None,
    }
}

/// `hjkl_buffer::Buffer::apply_edit` on a join: up to `count` rows (at least
/// one) are joined onto the row, and the cursor ends at its column 0. The
/// result is the row, the columns and the space flag of the inverse split,
/// `None` never. The call makes room for `count` columns, so that a count
/// beyond the rows of the text could ask for more memory than there is.
#[verifier::external_body]
pub(crate) fn rope_join(
    b: &mut hjkl_buffer::Buffer,
    row: usize,
    count: usize,
    space: bool,
) -> (r: Option<(usize, Vec<usize>, bool)>)
    requires
        count <= buffer_lines(*old(b)).len(),
    ensures
        edited(
            *old(b),
            *final(b),
            buffer::rows_joined(buffer_lines(*old(b)), row as int, count as int, space),
            (buffer::row_clamped(buffer_lines(*old(b)), row as int), 0int),
        ),
        r is Some,
        (r->0).0 == buffer::row_clamped(buffer_lines(*old(b)), row as int),
        (r->0).1@ == buffer::join_cols(buffer_lines(*old(b)), row as int, count as int, space),
        (r->0).2 == space,
{
    let edit = hjkl_buffer::Edit::JoinLines { row, count, with_space: space };
    match b.apply_edit(edit) {
        hjkl_buffer::Edit::SplitLines { row, cols, inserted_space } => Some(
            (row, cols, inserted_space),
        ),
        _ => None,
    }
}

/// `hjkl_buffer::Buffer::apply_edit` on a split: the row is cut at each
/// column, and the cursor ends at column 0 of its first piece. The result is
/// the row, the count and the space flag of the inverse join, `None` never.
#[verifier::external_body]
pub(crate) fn rope_split(
    b: &mut hjkl_buffer::Buffer,
    row: usize,
    cols: Vec<usize>,
    space: bool,
) -> (r: Option<(usize, usize, bool)>)
    ensures
        edited(
            *old(b),
            *final(b),
            buffer::row_split(buffer_lines(*old(b)), row as int, cols@, space),
            (buffer::row_clamped(buffer_lines(*old(b)), row as int), 0int),
        ),
        r is Some,
        (r->0).0 == buffer::row_clamped(buffer_lines(*old(b)), row as int),
        (r->0).1 == cols@.len(),
        (r->0).2 == space,
{
    let edit = hjkl_buffer::Edit::SplitLines { row, cols, inserted_space: space };
    match b.apply_edit(edit) {
        hjkl_buffer::Edit::JoinLines { row, count, with_space } => Some((row, count, with_space)),
        _ => None,
    }
}

/// `hjkl_buffer::Buffer::apply_edit` on a replacement: the text between the
/// two places goes, `t` comes in its place, and the cursor ends behind it. The
/// result is the range and the text of the inverse replacement, `None` never.
/// A row past the last would panic.
#[verifier::external_body]
pub(crate) fn rope_replace(
    b: &mut hjkl_buffer::Buffer,
    start: Position,
    end: Position,
    t: String,
) -> (r: Option<(Position, Position, String)>)
    requires
        start.row < buffer_lines(*old(b)).len(),
        end.row < buffer_lines(*old(b)).len(),
    ensures
        edited(
            *old(b),
            *final(b),
            buffer::replacement(buffer_lines(*old(b)), start.spot(), end.spot(), t@).0,
            buffer::replacement(buffer_lines(*old(b)), start.spot(), end.spot(), t@).2,
        ),
        r is Some,
        (r->0).0.spot() == buffer::replacement(
            buffer_lines(*old(b)),
            start.spot(),
            end.spot(),
            t@,
        ).1,
        (r->0).1.spot() == buffer::replacement(
            buffer_lines(*old(b)),
            start.spot(),
            end.spot(),
            t@,
        ).2,
        (r->0).2@ == buffer::text_between(
            buffer_lines(*old(b)),
            buffer::earlier(start.spot(), end.spot()),
            buffer::later(start.spot(), end.spot()),
        ),
{
    let start = hjkl_buffer::Position::new(start.row, start.col);
    let end = hjkl_buffer::Position::new(end.row, end.col);
    match b.apply_edit(hjkl_buffer::Edit::Replace { start, end, with: t }) {
        hjkl_buffer::Edit::Replace { start, end, with } => Some(
            (
                Position { row: start.row, col: start.col },
                Position { row: end.row, col: end.col },
                with,
            ),
        ),
        _ => None,
    }
}

/// `hjkl_buffer::Buffer::apply_edit` on a block insertion: each chunk goes to
/// column `at.col` of its row, short rows being filled with spaces first, and
/// the cursor ends at `at`. The result is the place and the widths of the
/// inverse deletion, `None` never. A chunk without a row would panic, and so
/// would a row filled up to a column that no string can reach.
#[verifier::external_body]
pub(crate) fn rope_insert_block(
    b: &mut hjkl_buffer::Buffer,
    at: Position,
    chunks: Vec<String>,
) -> (r: Option<(Position, Vec<usize>)>)
    requires
        buffer::block_fits(buffer_lines(*old(b)), at.spot(), buffer::texts(chunks@)),
    ensures
        edited(
            *old(b),
            *final(b),
            buffer::block_inserted(buffer_lines(*old(b)), at.spot(), buffer::texts(chunks@)),
            at.spot(),
        ),
        r is Some,
        (r->0).0 == at,
        (r->0).1@ == buffer::widths(buffer::texts(chunks@)),
{
    let at = hjkl_buffer::Position::new(at.row, at.col);
    match b.apply_edit(hjkl_buffer::Edit::InsertBlock { at, chunks }) {
        hjkl_buffer::Edit::DeleteBlockChunks { at, widths } => Some(
            (Position { row: at.row, col: at.col }, widths),
        ),
        _ => None,
    }
}

/// `hjkl_buffer::Buffer::apply_edit` on the deletion of block chunks: row
/// `at.row + i` loses `widths[i]` columns from `at.col` on, and the cursor ends
/// at `at`. The result is the place and the chunks of the inverse insertion,
/// `None` never. A row past the last, or a column that no `usize` holds, would
/// panic.
#[verifier::external_body]
pub(crate) fn rope_delete_chunks(
    b: &mut hjkl_buffer::Buffer,
    at: Position,
    widths: Vec<usize>,
) -> (r: Option<(Position, Vec<String>)>)
    requires
        widths@.len() > 0 ==> at.row + widths@.len() <= buffer_lines(*old(b)).len(),
        forall|i: int| 0 <= i < widths@.len() ==> at.col + (#[trigger] widths@[i]) <= usize::MAX,
    ensures
        edited(
            *old(b),
            *final(b),
            buffer::chunks_removed(buffer_lines(*old(b)), at.spot(), widths@),
            at.spot(),
        ),
        r is Some,
        (r->0).0 == at,
        buffer::texts((r->0).1@) == buffer::chunks_text(
            buffer_lines(*old(b)),
            at.spot(),
            widths@,
        ),
{
    let at = hjkl_buffer::Position::new(at.row, at.col);
    match b.apply_edit(hjkl_buffer::Edit::DeleteBlockChunks { at, widths }) {
        hjkl_buffer::Edit::InsertBlock { at, chunks } => Some(
            (Position { row: at.row, col: at.col }, chunks),
        ),
        _ => None,
    }
}

// ── Folds ───────────────────────────────────────────────────────────

/// `hjkl_buffer::Buffer::folds`: the folds in order.
#[verifier::external_body]
pub(crate) fn rope_folds(b: &hjkl_buffer::Buffer) -> (v: Vec<Fold>)
    ensures
        v@.len() == buffer_folds(*b).len(),
        forall|i: int| 0 <= i < v@.len() ==> (#[trigger] v@[i]).triple() == buffer_folds(*b)[i],
{
    b.folds().iter().map(
        |f| Fold { start_row: f.start_row, end_row: f.end_row, closed: f.closed },
    ).collect()
}

/// `hjkl_buffer::Buffer::is_row_hidden`: whether some fold hides the row.
#[verifier::external_body]
pub(crate) fn rope_row_hidden(b: &hjkl_buffer::Buffer, row: usize) -> (h: bool)
    ensures
        h == buffer::hidden(buffer_folds(*b), row as int),
{
    b.is_row_hidden(row)
}

/// `hjkl_buffer::Buffer::next_visible_row`: the first row after `row` that no
/// fold hides.
#[verifier::external_body]
pub(crate) fn rope_next_visible(b: &hjkl_buffer::Buffer, row: usize) -> (r: Option<usize>)
    ensures
        buffer::as_row(r) == buffer::next_visible(
            buffer_folds(*b),
            buffer_lines(*b).len() as int,
            row as int,
        ),
{
    b.next_visible_row(row)
}

/// `hjkl_buffer::Buffer::prev_visible_row`: the last row before `row` that no
/// fold hides.
#[verifier::external_body]
pub(crate) fn rope_prev_visible(b: &hjkl_buffer::Buffer, row: usize) -> (r: Option<usize>)
    ensures
        buffer::as_row(r) == buffer::prev_visible(buffer_folds(*b), row as int),
{
    b.prev_visible_row(row)
}

/// `hjkl_buffer::Buffer::fold_at_row`: the first fold that covers the row.
#[verifier::external_body]
pub(crate) fn rope_fold_at(b: &hjkl_buffer::Buffer, row: usize) -> (r: Option<
    (usize, usize, bool),
>)
    ensures
        buffer::as_fold(r) == buffer::fold_at(buffer_folds(*b), row as int),
{
    b.fold_at_row(row).map(|f| (f.start_row, f.end_row, f.closed))
}

/// `hjkl_buffer::Buffer::add_fold`: adds a fold, cut off at the last row; an
/// empty range, or one that starts past the last row, is passed over.
#[verifier::external_body]
pub(crate) fn rope_add_fold(b: &mut hjkl_buffer::Buffer, start: usize, end: usize, closed: bool)
    ensures
        only_folds_changed(*old(b), *final(b)),
        buffer_folds(*final(b)) == buffer::fold_added(
            buffer_folds(*old(b)),
            buffer_lines(*old(b)).len() as int,
            start as int,
            end as int,
            closed,
        ),
        buffer_gen(*final(b)) == if end < start || start >= buffer_lines(*old(b)).len() {
            buffer_gen(*old(b))
        } else {
            buffer::bumped(buffer_gen(*old(b)))
        },
{
    b.add_fold(start, end, closed)
}

/// `hjkl_buffer::Buffer::remove_fold_at`: drops the first fold that covers the
/// row, and says whether there was one.
#[verifier::external_body]
pub(crate) fn rope_remove_fold(b: &mut hjkl_buffer::Buffer, row: usize) -> (found: bool)
    ensures
        only_folds_changed(*old(b), *final(b)),
        buffer_folds(*final(b)) == buffer::fold_removed(buffer_folds(*old(b)), row as int),
        gen_follows_folds(*old(b), *final(b)),
        found == (buffer::fold_at(buffer_folds(*old(b)), row as int) is Some),
{
    b.remove_fold_at(row)
}

/// `hjkl_buffer::Buffer::open_fold_at`: opens the first fold that covers the
/// row, and says whether it was closed.
#[verifier::external_body]
pub(crate) fn rope_open_fold(b: &mut hjkl_buffer::Buffer, row: usize) -> (changed: bool)
    ensures
        only_folds_changed(*old(b), *final(b)),
        buffer_folds(*final(b)) == buffer::fold_set(buffer_folds(*old(b)), row as int, false),
        gen_follows_folds(*old(b), *final(b)),
        changed == (buffer::fold_at(buffer_folds(*old(b)), row as int) matches Some(f) && f.2),
{
    b.open_fold_at(row)
}

/// `hjkl_buffer::Buffer::close_fold_at`: closes the first fold that covers the
/// row, and says whether it was open.
#[verifier::external_body]
pub(crate) fn rope_close_fold(b: &mut hjkl_buffer::Buffer, row: usize) -> (changed: bool)
    ensures
        only_folds_changed(*old(b), *final(b)),
        buffer_folds(*final(b)) == buffer::fold_set(buffer_folds(*old(b)), row as int, true),
        gen_follows_folds(*old(b), *final(b)),
        changed == (buffer::fold_at(buffer_folds(*old(b)), row as int) matches Some(f) && !f.2),
{
    b.close_fold_at(row)
}

/// `hjkl_buffer::Buffer::toggle_fold_at`: flips the first fold that covers the
/// row, and says whether there was one.
#[verifier::external_body]
pub(crate) fn rope_toggle_fold(b: &mut hjkl_buffer::Buffer, row: usize) -> (found: bool)
    ensures
        only_folds_changed(*old(b), *final(b)),
        buffer_folds(*final(b)) == buffer::fold_toggled(buffer_folds(*old(b)), row as int),
        gen_follows_folds(*old(b), *final(b)),
        found == (buffer::fold_at(buffer_folds(*old(b)), row as int) is Some),
{
    b.toggle_fold_at(row)
}

/// `hjkl_buffer::Buffer::open_all_folds`: opens every fold.
#[verifier::external_body]
pub(crate) fn rope_open_folds(b: &mut hjkl_buffer::Buffer)
    ensures
        only_folds_changed(*old(b), *final(b)),
        buffer_folds(*final(b)) == buffer::folds_set(buffer_folds(*old(b)), false),
        gen_follows_folds(*old(b), *final(b)),
{
    b.open_all_folds()
}

/// `hjkl_buffer::Buffer::close_all_folds`: closes every fold.
#[verifier::external_body]
pub(crate) fn rope_close_folds(b: &mut hjkl_buffer::Buffer)
    ensures
        only_folds_changed(*old(b), *final(b)),
        buffer_folds(*final(b)) == buffer::folds_set(buffer_folds(*old(b)), true),
        gen_follows_folds(*old(b), *final(b)),
{
    b.close_all_folds()
}

/// `hjkl_buffer::Buffer::clear_all_folds`: drops every fold.
#[verifier::external_body]
pub(crate) fn rope_clear_folds(b: &mut hjkl_buffer::Buffer)
    ensures
        only_folds_changed(*old(b), *final(b)),
        buffer_folds(*final(b)) == Seq::<(int, int, bool)>::empty(),
        gen_follows_folds(*old(b), *final(b)),
{
    b.clear_all_folds()
}

/// `hjkl_buffer::Buffer::invalidate_folds_in_range`: drops every fold that has
/// a row in `start..=end`.
#[verifier::external_body]
pub(crate) fn rope_invalidate_folds(b: &mut hjkl_buffer::Buffer, start: usize, end: usize)
    ensures
        only_folds_changed(*old(b), *final(b)),
        buffer_folds(*final(b)) == buffer::folds_outside(
            buffer_folds(*old(b)),
            start as int,
            end as int,
        ),
        gen_follows_folds(*old(b), *final(b)),
{
    b.invalidate_folds_in_range(start, end)
}

// ── Soft wrap and words ─────────────────────────────────────────────

/// The segments, as column ranges, into which soft wrap breaks a line that is
/// not empty at a width that is not zero; `word` asks for breaks after blanks.
pub uninterp spec fn soft_wrap(line: Seq<char>, width: u16, word: bool) -> Seq<(usize, usize)>;

/// The screen rows of a line as column ranges.
pub open spec fn segments(line: Seq<char>, width: u16, mode: Wrap) -> Seq<(usize, usize)> {
    if mode is Off || width == 0 || line.len() == 0 {
        seq![(0usize, line.len() as usize)]
    } else {
        soft_wrap(line, width, mode is Word)
    }
}

/// Every character of the line lies below U+1100, where each takes one cell.
pub open spec fn narrow(line: Seq<char>) -> bool {
    forall|i: int| 0 <= i < line.len() ==> (#[trigger] line[i] as u32) < 0x1100
}

/// How many cells a character of the line takes at most. One character, U+17D8,
/// takes three cells, and no other more than two.
pub open spec fn widest(line: Seq<char>) -> int {
    if narrow(line) {
        1
    } else if !line.contains('\u{17D8}') {
        2
    } else {
        3
    }
}

/// Whether soft wrap comes to an end on a line. A character that is wider than
/// the text area would never fit, and at a width at the limit of its type a long
/// line would overflow the cell count.
pub open spec fn wraps(line: Seq<char>, width: u16, mode: Wrap) -> bool {
    ||| mode is Off
    ||| width == 0
    ||| line.len() == 0
    ||| {
        &&& width >= widest(line)
        &&& width <= u16::MAX - widest(line) || widest(line) * line.len() <= u16::MAX
    }
}

/// Whether soft wrap comes to an end on a line.
pub fn line_wraps(line: &str, width: u16, mode: Wrap) -> (b: bool)
    ensures
        b == wraps(line@, width, mode),
{
    let v = text::chars_of(line);
    if matches!(mode, Wrap::Off) || width == 0 || v.len() == 0 {
        return true;
    }
    let mut wide = false;
    let mut widest_seen = false;
    let mut i: usize = 0;
    while i < v.len()
        invariant
            v@ == line@,
            i <= v.len(),
            wide == exists|k: int| 0 <= k < i && (#[trigger] line@[k] as u32) >= 0x1100,
            widest_seen == exists|k: int| 0 <= k < i && #[trigger] line@[k] == '\u{17D8}',
        decreases v.len() - i,
    {
        let c = v[i];
        assert(line@[i as int] == c);
        if c as u32 >= 0x1100 {
            wide = true;
        }
        if c == '\u{17D8}' {
            widest_seen = true;
        }
        i = i + 1;
    }
    let most: u16 = if !wide {
        1
    } else if !widest_seen {
        2
    } else {
        3
    };
    assert(most == widest(line@)) by {
        if wide {
            let k = choose|k: int| 0 <= k < line@.len() && (#[trigger] line@[k] as u32) >= 0x1100;
            assert(!narrow(line@));
        } else {
            assert(narrow(line@));
        }
        if widest_seen {
            let k = choose|k: int| 0 <= k < line@.len() && #[trigger] line@[k] == '\u{17D8}';
            assert(line@.contains('\u{17D8}'));
        } else {
            assert(!line@.contains('\u{17D8}'));
        }
    }
    width >= most && (width <= 0xffff - most || v.len() <= (0xffff / most) as usize)
}

/// Whether a line of one-cell characters breaks at `stop` on the screen row
/// that begins at `start`: at the end of the line where the rest fits, else
/// after the last blank that fits where `word` asks for that and there is one,
/// else after as many columns as fit.
pub open spec fn breaks_at(
    line: Seq<char>,
    width: int,
    word: bool,
    start: int,
    stop: int,
) -> bool {
    if line.len() <= start + width {
        stop == line.len()
    } else if word && exists|k: int|
        start <= k < start + width && text::white_space(#[trigger] line[k]) {
        &&& start < stop <= start + width
        &&& text::white_space(line[stop - 1])
        &&& forall|k: int|
            stop <= k < start + width ==> !text::white_space(#[trigger] line[k])
    } else {
        stop == start + width
    }
}

/// The segments of a line start at column 0, follow each other without a gap,
/// end with the line, and are not empty unless the line is.
pub open spec fn tiles(segs: Seq<(usize, usize)>, len: int) -> bool {
    &&& segs.len() >= 1
    &&& segs[0].0 == 0
    &&& segs.last().1 == len
    &&& forall|i: int| 0 <= i < segs.len() - 1 ==> (#[trigger] segs[i]).1 == segs[i + 1].0
    &&& forall|i: int|
        0 <= i < segs.len() ==> (#[trigger] segs[i]).0 < segs[i].1 || (len == 0 && segs.len() == 1)
}

/// `hjkl_buffer::wrap::wrap_segments`: the screen rows of a line. Which
/// columns fit on a row depends on the display width of each character;
/// the breaks are spelled out for lines whose characters all take one cell.
#[verifier::external_body]
pub(crate) fn wrap_line(line: &str, width: u16, mode: Wrap) -> (v: Vec<(usize, usize)>)
    requires
        wraps(line@, width, mode),
    ensures
        mode is Off || width == 0 || line@.len() == 0 ==> v@ == seq![(0usize, line@.len() as usize)],
        !(mode is Off || width == 0 || line@.len() == 0) ==> v@ == soft_wrap(
            line@,
            width,
            mode is Word,
        ),
        tiles(v@, line@.len() as int),
        !(mode is Off || width == 0) && narrow(line@) ==> forall|i: int|
            0 <= i < v@.len() ==> breaks_at(
                line@,
                width as int,
                mode is Word,
                (#[trigger] v@[i]).0 as int,
                v@[i].1 as int,
            ),
{
    let mode = match mode {
        Wrap::Off => hjkl_buffer::Wrap::None,
        Wrap::Char => hjkl_buffer::Wrap::Char,
        Wrap::Word => hjkl_buffer::Wrap::Word,
    };
    hjkl_buffer::wrap::wrap_segments(line, width, mode)
}

/// The index of the segment that holds `col`, or of the last one.
pub open spec fn segment_of(segs: Seq<(usize, usize)>, col: int) -> int {
    let i = buffer::first_where(segs, |s: (usize, usize)| s.0 <= col < s.1);
    if segs.len() == 0 {
        0
    } else if i < segs.len() {
        i
    } else {
        segs.len() - 1
    }
}

/// `hjkl_buffer::wrap::segment_for_col`: the first segment that holds the
/// column, or the last one when none does.
#[verifier::external_body]
pub(crate) fn segment_for_col(segs: &Vec<(usize, usize)>, col: usize) -> (i: usize)
    ensures
        i == segment_of(segs@, col as int),
{
    hjkl_buffer::wrap::segment_for_col(segs, col)
}

/// Whether a character belongs to a word under an `iskeyword` list.
pub uninterp spec fn keyword(c: char, list: Seq<char>) -> bool;

/// `hjkl_buffer::is_keyword_char`: whether the comma separated list admits the
/// character, by itself, by its code, by a range of codes or by `@`. How the
/// entries of a list are read is not spelled out here.
#[verifier::external_body]
pub(crate) fn is_keyword(c: char, list: &str) -> (b: bool)
    ensures
        b == keyword(c, list@),
{
    hjkl_buffer::is_keyword_char(c, list)
}

} // verus!
