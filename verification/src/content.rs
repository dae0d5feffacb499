//! What an edit means to others: the records that describe a change of the
//! buffer to change logs and to incremental parsers.
use std::ops::Range;

use hjkl_buffer::Buffer as RopeBuffer;
use vstd::prelude::*;

use crate::buffer;
use crate::buffer::{Edit, MotionKind, Position};
use crate::edits;
use crate::rope;
use crate::text;
use crate::types::{Edit as EditOp, Pos};

verus! {

/// One change of the text in bytes: what lies between `start` and `old_end`
/// was replaced, and the new text ends at `new_end`. A position is a row and a
/// byte column.
#[derive(Debug, Clone, Copy, PartialEq, Eq)]
pub struct ContentEdit {
    pub start_byte: usize,
    pub old_end_byte: usize,
    pub new_end_byte: usize,
    pub start_position: (u32, u32),
    pub old_end_position: (u32, u32),
    pub new_end_position: (u32, u32),
}

// ── Edit records ────────────────────────────────────────────────────

/// An edit record as a triple: start, end, replacement.
pub open spec fn op_view(op: EditOp) -> (Pos, Pos, Seq<char>) {
    (op.range.start, op.range.end, op.replacement@)
}

/// The triples of a list of edit records.
pub open spec fn op_views(ops: Seq<EditOp>) -> Seq<(Pos, Pos, Seq<char>)> {
    Seq::new(ops.len(), |i: int| op_view(ops[i]))
}

/// A place with both of its numbers cut down to 32 bits.
pub open spec fn pos_at(row: usize, col: usize) -> Pos {
    Pos { line: row as u32, col: col as u32 }
}

/// The edit records of an edit: one, but for a split, which has one per
/// column, and for block edits, which have one per row.
pub open spec fn edit_ops(edit: Edit) -> Seq<(Pos, Pos, Seq<char>)> {
    let none = Seq::<char>::empty();
    match edit {
        Edit::InsertChar { at, ch } => seq![
            (pos_at(at.row, at.col), pos_at(at.row, at.col), seq![ch]),
        ],
        Edit::InsertStr { at, text: t } => seq![
            (pos_at(at.row, at.col), pos_at(at.row, at.col), t@),
        ],
        Edit::DeleteRange { start, end, .. } => seq![
            (pos_at(start.row, start.col), pos_at(end.row, end.col), none),
        ],
        Edit::Replace { start, end, with } => seq![
            (pos_at(start.row, start.col), pos_at(end.row, end.col), with@),
        ],
        Edit::JoinLines { row, count, with_space } => seq![
            (
                Pos { line: (row as u32).wrapping_add(1), col: 0 },
                Pos { line: (row as u32).wrapping_add(count as u32), col: u32::MAX },
                if with_space {
                    seq![' ']
                } else {
                    none
                },
            ),
        ],
        Edit::SplitLines { row, cols, .. } => Seq::new(
            cols@.len(),
            |i: int| (pos_at(row, cols@[i]), pos_at(row, cols@[i]), seq!['\n']),
        ),
        Edit::InsertBlock { at, chunks } => Seq::new(
            chunks@.len(),
            |i: int| (block_pos(at, i, 0), block_pos(at, i, 0), chunks@[i]@),
        ),
        Edit::DeleteBlockChunks { at, widths } => Seq::new(
            widths@.len(),
            |i: int| (block_pos(at, i, 0), block_pos(at, i, widths@[i] as u32), none),
        ),
    }
}

/// The position `i` rows below `at` and `width` columns to its right.
pub open spec fn block_pos(at: Position, i: int, width: u32) -> Pos {
    Pos {
        line: (at.row as u32).wrapping_add((i as usize) as u32),
        col: (at.col as u32).wrapping_add(width),
    }
}

fn one_op(start: Pos, end: Pos, replacement: String) -> (v: Vec<EditOp>)
    ensures
        op_views(v@) == seq![(start, end, replacement@)],
{
    let op = EditOp { range: start..end, replacement };
    let v = vec![op];
    assert(op_views(v@) =~= seq![(start, end, replacement@)]);
    v
}

fn to_pos(p: Position) -> (q: Pos)
    ensures
        q == pos_at(p.row, p.col),
{
    Pos { line: p.row as u32, col: p.col as u32 }
}

/// The string of one character.
fn char_string(c: char) -> (s: String)
    ensures
        s@ == seq![c],
{
    let mut s = String::new();
    s.push(c);
    assert(s@ =~= seq![c]);
    s
}

/// The edit records of an edit. Most edits have one; a split has one per
/// column and a block edit one per row.
pub fn edit_to_editops(edit: &Edit) -> (ops: Vec<EditOp>)
    ensures
        op_views(ops@) == edit_ops(*edit),
{
    match edit {
        Edit::InsertChar { at, ch } => one_op(to_pos(*at), to_pos(*at), char_string(*ch)),
        Edit::InsertStr { at, text: t } => one_op(to_pos(*at), to_pos(*at), t.clone()),
        Edit::DeleteRange { start, end, .. } => one_op(
            to_pos(*start),
            to_pos(*end),
            String::new(),
        ),
        Edit::Replace { start, end, with } => one_op(to_pos(*start), to_pos(*end), with.clone()),
        Edit::JoinLines { row, count, with_space } => {
            let start = Pos { line: (*row as u32).wrapping_add(1), col: 0 };
            let end = Pos { line: (*row as u32).wrapping_add(*count as u32), col: u32::MAX };
            one_op(
                start,
                end,
                if *with_space {
                    char_string(' ')
                } else {
                    String::new()
                },
            )
        },
        Edit::SplitLines { row, cols, .. } => {
            let mut out: Vec<EditOp> = Vec::new();
            let mut i: usize = 0;
            while i < cols.len()
                invariant
                    i <= cols@.len(),
                    op_views(out@) == Seq::new(
                        i as nat,
                        |k: int| (pos_at(*row, cols@[k]), pos_at(*row, cols@[k]), seq!['\n']),
                    ),
                decreases cols.len() - i,
            {
                let p = Pos { line: *row as u32, col: cols[i] as u32 };
                let ghost before = out@;
                out.push(EditOp { range: p..p, replacement: char_string('\n') });
                i = i + 1;
                assert(op_views(out@) =~= op_views(before).push((p, p, seq!['\n'])));
                assert(op_views(out@) =~= Seq::new(
                    i as nat,
                    |k: int| (pos_at(*row, cols@[k]), pos_at(*row, cols@[k]), seq!['\n']),
                ));
            }
            out
        },
        Edit::InsertBlock { at, chunks } => {
            let mut out: Vec<EditOp> = Vec::new();
            let mut i: usize = 0;
            while i < chunks.len()
                invariant
                    i <= chunks@.len(),
                    op_views(out@) == Seq::new(
                        i as nat,
                        |k: int| (block_pos(*at, k, 0), block_pos(*at, k, 0), chunks@[k]@),
                    ),
                decreases chunks.len() - i,
            {
                let p = Pos {
                    line: (at.row as u32).wrapping_add(i as u32),
                    col: at.col as u32,
                };
                let ghost before = out@;
                out.push(EditOp { range: p..p, replacement: chunks[i].clone() });
                i = i + 1;
                assert(op_views(out@) =~= op_views(before).push((p, p, chunks@[i - 1]@)));
                assert(op_views(out@) =~= Seq::new(
                    i as nat,
                    |k: int| (block_pos(*at, k, 0), block_pos(*at, k, 0), chunks@[k]@),
                ));
            }
            out
        },
        Edit::DeleteBlockChunks { at, widths } => {
            let mut out: Vec<EditOp> = Vec::new();
            let mut i: usize = 0;
            while i < widths.len()
                invariant
                    i <= widths@.len(),
                    op_views(out@) == Seq::new(
                        i as nat,
                        |k: int|
                            (
                                block_pos(*at, k, 0),
                                block_pos(*at, k, widths@[k] as u32),
                                Seq::<char>::empty(),
                            ),
                    ),
                decreases widths.len() - i,
            {
                let line: u32 = (at.row as u32).wrapping_add(i as u32);
                let start = Pos { line, col: at.col as u32 };
                let end = Pos { line, col: (at.col as u32).wrapping_add(widths[i] as u32) };
                let ghost before = out@;
                out.push(EditOp { range: start..end, replacement: String::new() });
                i = i + 1;
                assert(op_views(out@) =~= op_views(before).push(
                    (start, end, Seq::<char>::empty()),
                ));
                assert(op_views(out@) =~= Seq::new(
                    i as nat,
                    |k: int|
                        (
                            block_pos(*at, k, 0),
                            block_pos(*at, k, widths@[k] as u32),
                            Seq::<char>::empty(),
                        ),
                ));
            }
            out
        },
    }
}

// ── Byte records ────────────────────────────────────────────────────

/// A place in the text: byte offset, row and byte column.
pub struct ByteCoords {
    pub byte: usize,
    pub position: (u32, u32),
}

/// The byte at which a row starts; past the last row, the size of the text.
pub open spec fn row_byte(lines: Seq<Seq<char>>, row: int) -> int {
    if row < lines.len() {
        buffer::bytes_above(lines, row) as int
    } else {
        buffer::bytes_above(lines, lines.len() as int) - 1
    }
}

/// The bytes of a line before column `col`.
pub open spec fn col_byte(line: Seq<char>, col: int) -> int {
    text::byte_len(line.take(text::min(col, line.len() as int))) as int
}

/// A row and a byte column, counted in bytes from the start of the text too.
pub open spec fn coords_of(lines: Seq<Seq<char>>, row: int, byte_col: int) -> ByteCoords {
    ByteCoords {
        byte: (row_byte(lines, row) + byte_col) as usize,
        position: (row as u32, byte_col as u32),
    }
}

/// The place closest to `at` in bytes.
pub open spec fn coords(lines: Seq<Seq<char>>, at: (int, int)) -> ByteCoords {
    let row = buffer::row_clamped(lines, at.0);
    coords_of(lines, row, col_byte(lines[row], at.1))
}

/// Where a text of `n` bytes without line breaks ends.
pub open spec fn after_bytes(start: ByteCoords, n: int) -> ByteCoords {
    ByteCoords {
        byte: (start.byte + n) as usize,
        position: (start.position.0, start.position.1.wrapping_add(n as u32)),
    }
}

/// Where a text that starts at `start` ends.
pub open spec fn after_text(start: ByteCoords, t: Seq<char>) -> ByteCoords {
    let pieces = buffer::split_text(t);
    if pieces.len() == 1 {
        after_bytes(start, text::byte_len(t) as int)
    } else {
        ByteCoords {
            byte: (start.byte + text::byte_len(t)) as usize,
            position: (
                start.position.0.wrapping_add((pieces.len() - 1) as u32),
                text::byte_len(pieces.last()) as u32,
            ),
        }
    }
}

/// The record of a change from `start` to `old_end` that ends at `new_end`.
pub open spec fn record(start: ByteCoords, old_end: ByteCoords, new_end: ByteCoords) -> ContentEdit {
    ContentEdit {
        start_byte: start.byte,
        old_end_byte: old_end.byte,
        new_end_byte: new_end.byte,
        start_position: start.position,
        old_end_position: old_end.position,
        new_end_position: new_end.position,
    }
}

/// The record of putting `t` in place of what lies between two places.
pub open spec fn replacing(
    lines: Seq<Seq<char>>,
    from: (int, int),
    to: (int, int),
    t: Seq<char>,
) -> ContentEdit {
    record(coords(lines, from), coords(lines, to), after_text(coords(lines, from), t))
}

/// The records of taking `widths[i]` columns from column `left` of row
/// `top + i` on; a row that has nothing there has no record.
pub open spec fn cut_records(lines: Seq<Seq<char>>, top: int, left: int, widths: Seq<int>) -> Seq<
    ContentEdit,
>
    decreases widths.len(),
{
    if widths.len() == 0 {
        Seq::<ContentEdit>::empty()
    } else {
        let before = cut_records(lines, top, left, widths.drop_last());
        let row = top + widths.len() - 1;
        let start = coords(lines, (row, left));
        let end = coords(lines, (row, left + widths.last()));
        if end.byte <= start.byte {
            before
        } else {
            before.push(record(start, end, start))
        }
    }
}

/// The records of an edit, in the bytes of the text before the edit.
pub open spec fn content_edits(lines: Seq<Seq<char>>, edit: Edit) -> Seq<ContentEdit> {
    let none = Seq::<char>::empty();
    let last = lines.len() - 1;
    match edit {
        Edit::InsertChar { at, ch } => seq![replacing(lines, at.spot(), at.spot(), seq![ch])],
        Edit::InsertStr { at, text: t } => seq![replacing(lines, at.spot(), at.spot(), t@)],
        Edit::DeleteRange { start, end, kind } => {
            let from = buffer::earlier(start.spot(), end.spot());
            let to = buffer::later(start.spot(), end.spot());
            match kind {
                MotionKind::Char => seq![replacing(lines, from, to, none)],
                MotionKind::Line => {
                    let first = ByteCoords {
                        byte: row_byte(lines, from.0) as usize,
                        position: (from.0 as u32, 0),
                    };
                    let hi = text::min(to.0, last);
                    let behind = ByteCoords {
                        byte: row_byte(lines, hi + 1) as usize,
                        position: ((hi as u32).wrapping_add(1), 0),
                    };
                    seq![record(first, behind, first)]
                },
                MotionKind::Block => cut_records(
                    lines,
                    from.0,
                    text::min(from.1, to.1),
                    Seq::new(
                        (to.0 - from.0 + 1) as nat,
                        |i: int| text::max(from.1, to.1) - text::min(from.1, to.1) + 1,
                    ),
                ),
            }
        },
        Edit::Replace { start, end, with } => seq![
            replacing(
                lines,
                buffer::earlier(start.spot(), end.spot()),
                buffer::later(start.spot(), end.spot()),
                with@,
            ),
        ],
        Edit::JoinLines { row, count, with_space } => {
            let at = buffer::row_clamped(lines, row as int);
            let to = text::min(at + count, last);
            let start = coords_of(lines, at, text::byte_len(lines[at]) as int);
            let end = coords_of(lines, to, text::byte_len(lines[to]) as int);
            seq![
                record(
                    start,
                    end,
                    after_bytes(
                        start,
                        if with_space {
                            1
                        } else {
                            0
                        },
                    ),
                ),
            ]
        },
        Edit::SplitLines { row, cols, inserted_space } => {
            let at = buffer::row_clamped(lines, row as int);
            Seq::new(
                cols@.len(),
                |i: int|
                    replacing(
                        lines,
                        (at, cols@[i] as int),
                        (at, cols@[i] as int),
                        if inserted_space {
                            seq!['\n', ' ']
                        } else {
                            seq!['\n']
                        },
                    ),
            )
        },
        Edit::InsertBlock { at, chunks } => Seq::new(
            chunks@.len(),
            |i: int|
                replacing(
                    lines,
                    (at.row + i, at.col as int),
                    (at.row + i, at.col as int),
                    chunks@[i]@,
                ),
        ),
        Edit::DeleteBlockChunks { at, widths } => cut_records(
            lines,
            at.row as int,
            at.col as int,
            Seq::new(widths@.len(), |i: int| widths@[i] as int),
        ),
    }
}

/// `a + n`, cut down to the size of a byte offset.
fn plus(a: usize, n: usize) -> (r: usize)
    ensures
        r == (a + n) as usize,
{
    (a as u128 + n as u128) as usize
}

/// No place of the text lies past its end.
proof fn lemma_coords_fit(lines: Seq<Seq<char>>, row: int, col: int)
    requires
        0 <= row < lines.len(),
        0 <= col,
    ensures
        0 <= col_byte(lines[row], col) <= text::byte_len(lines[row]),
        row_byte(lines, row) + text::byte_len(lines[row]) < buffer::bytes_above(
            lines,
            lines.len() as int,
        ),
{
    let line = lines[row];
    let c = text::min(col, line.len() as int);
    text::lemma_byte_len_prefix(line, c, line.len() as int);
    assert(line.take(line.len() as int) =~= line);
    buffer::lemma_bytes_above_grows(lines, row + 1, lines.len() as int);
}

/// The byte at which a row starts; past the last row, the size of the text.
fn buffer_byte_of_row(b: &RopeBuffer, row: usize) -> (n: usize)
    ensures
        n == row_byte(rope::buffer_lines(*b), row as int),
{
    let count: usize = rope::rope_row_count(b);
    let ghost lines = rope::buffer_lines(*b);
    let stop: usize = if row < count {
        row
    } else {
        count
    };
    let mut acc: usize = 0;
    let mut r: usize = 0;
    while r < stop
        invariant
            lines == rope::buffer_lines(*b),
            count == lines.len(),
            count >= 1,
            buffer::bytes_above(lines, count as int) <= usize::MAX,
            r <= stop <= count,
            acc == row_byte(lines, r as int),
        decreases stop - r,
    {
        proof {
            buffer::lemma_bytes_above_grows(lines, r + 1, count as int);
        }
        let len: usize = match rope::rope_line(b, r) {
            Some(s) => text::byte_length(s),
            None => 0,
        };
        acc = acc + len;
        if r < count - 1 {
            acc = acc + 1;
        }
        r = r + 1;
    }
    acc
}

/// The place closest to a row and a column in bytes.
fn position_to_byte_coords(b: &RopeBuffer, row: usize, col: usize) -> (c: ByteCoords)
    ensures
        c == coords(rope::buffer_lines(*b), (row as int, col as int)),
        c.byte < buffer::bytes_above(
            rope::buffer_lines(*b),
            rope::buffer_lines(*b).len() as int,
        ),
{
    let count: usize = rope::rope_row_count(b);
    let ghost lines = rope::buffer_lines(*b);
    let row: usize = if row < count {
        row
    } else {
        count - 1
    };
    let line: &str = match rope::rope_line(b, row) {
        Some(s) => s,
        None => "",
    };
    proof {
        lemma_coords_fit(lines, row as int, col as int);
    }
    let byte_col: usize = rope::byte_offset(line, col);
    let byte: usize = buffer_byte_of_row(b, row) + byte_col;
    ByteCoords { byte, position: (row as u32, byte_col as u32) }
}

/// Where a text that starts at `start` ends.
pub fn advance_by_text(t: &str, start: &ByteCoords) -> (end: ByteCoords)
    ensures
        end == after_text(*start, t@),
{
    let v = text::chars_of(t);
    let total: usize = text::byte_length(t);
    let mut breaks: usize = 0;
    let mut tail: usize = 0;
    let mut i: usize = 0;
    while i < v.len()
        invariant
            v@ == t@,
            total == text::byte_len(t@),
            i <= v.len(),
            breaks <= i,
            buffer::split_text(t@.take(i as int)).len() == breaks + 1,
            tail == text::byte_len(buffer::split_text(t@.take(i as int)).last()),
            tail <= text::byte_len(t@.take(i as int)),
            breaks == 0 ==> buffer::split_text(t@.take(i as int)).last() == t@.take(i as int),
        decreases v.len() - i,
    {
        proof {
            assert(t@.take(i + 1).drop_last() =~= t@.take(i as int));
            text::lemma_byte_len_step(t@, i as int);
            text::lemma_byte_len_prefix(t@, i + 1, t@.len() as int);
            assert(t@.take(t@.len() as int) =~= t@);
            let last = buffer::split_text(t@.take(i as int)).last();
            assert(last.push(t@[i as int]).drop_last() =~= last);
            assert(breaks == 0 && t@[i as int] != '\n' ==> last.push(t@[i as int]) =~= t@.take(
                i + 1,
            ));
        }
        if v[i] == '\n' {
            breaks = breaks + 1;
            tail = 0;
        } else {
            tail = tail + text::char_byte_count(v[i]);
        }
        i = i + 1;
    }
    proof {
        assert(t@.take(t@.len() as int) =~= t@);
    }
    let position: (u32, u32) = if breaks == 0 {
        (start.position.0, start.position.1.wrapping_add(total as u32))
    } else {
        (start.position.0.wrapping_add(breaks as u32), tail as u32)
    };
    ByteCoords { byte: plus(start.byte, total), position }
}

fn make_record(start: &ByteCoords, old_end: &ByteCoords, new_end: &ByteCoords) -> (r: ContentEdit)
    ensures
        r == record(*start, *old_end, *new_end),
{
    ContentEdit {
        start_byte: start.byte,
        old_end_byte: old_end.byte,
        new_end_byte: new_end.byte,
        start_position: start.position,
        old_end_position: old_end.position,
        new_end_position: new_end.position,
    }
}

/// The record of putting `t` in place of what lies between two places.
pub(crate) fn replace_record(b: &RopeBuffer, from: Position, to: Position, t: &str) -> (r: ContentEdit)
    ensures
        r == replacing(rope::buffer_lines(*b), from.spot(), to.spot(), t@),
{
    let start = position_to_byte_coords(b, from.row, from.col);
    let old_end = position_to_byte_coords(b, to.row, to.col);
    let new_end = advance_by_text(t, &start);
    make_record(&start, &old_end, &new_end)
}

/// Adds the record of taking the columns from `left` up to `right` out of a
/// row, where there is something.
fn push_cut(out: &mut Vec<ContentEdit>, b: &RopeBuffer, row: usize, left: usize, right: usize)
    ensures
        ({
            let start = coords(rope::buffer_lines(*b), (row as int, left as int));
            let end = coords(rope::buffer_lines(*b), (row as int, right as int));
            final(out)@ == if end.byte <= start.byte {
                old(out)@
            } else {
                old(out)@.push(record(start, end, start))
            }
        }),
{
    let start = position_to_byte_coords(b, row, left);
    let end = position_to_byte_coords(b, row, right);
    if end.byte > start.byte {
        out.push(make_record(&start, &end, &start));
    }
}

/// A column past the end of a line stands for its end, and a row past the last
/// for the last.
proof fn lemma_coords_saturate(lines: Seq<Seq<char>>, a: (int, int), b: (int, int))
    requires
        lines.len() > 0,
        0 <= a.0 && 0 <= a.1,
        a == b || (a.0 <= b.0 && a.0 >= lines.len() - 1 && a.1 == b.1) || (a.0 == b.0 && a.1
            <= b.1 && a.1 >= lines[buffer::row_clamped(lines, a.0)].len()),
    ensures
        coords(lines, a) == coords(lines, b),
{
}

/// A line of a text whose bytes can be counted has columns that can be.
proof fn lemma_line_fits(lines: Seq<Seq<char>>, row: int)
    requires
        0 <= row,
        lines.len() > 0,
        buffer::bytes_above(lines, lines.len() as int) <= usize::MAX,
    ensures
        lines[buffer::row_clamped(lines, row)].len() <= usize::MAX,
{
    let r = buffer::row_clamped(lines, row);
    lemma_coords_fit(lines, r, 0);
    text::lemma_byte_len_prefix(lines[r], 0, lines[r].len() as int);
    assert(lines[r].take(lines[r].len() as int) =~= lines[r]);
}

fn block_cuts(b: &RopeBuffer, top: usize, bottom: usize, left: usize, right: usize) -> (out: Vec<
    ContentEdit,
>)
    requires
        top <= bottom,
        left <= right,
    ensures
        out@ == cut_records(
            rope::buffer_lines(*b),
            top as int,
            left as int,
            Seq::new((bottom - top + 1) as nat, |i: int| right - left + 1),
        ),
{
    let ghost lines = rope::buffer_lines(*b);
    let ghost all = Seq::new((bottom - top + 1) as nat, |i: int| right - left + 1);
    let count: usize = rope::rope_row_count(b);
    let stop: usize = text::advance(right, 1, usize::MAX);
    let mut out: Vec<ContentEdit> = Vec::new();
    let mut row: usize = top;
    let mut more = true;
    assert(all.take(0) =~= Seq::<int>::empty());
    while more
        invariant
            lines == rope::buffer_lines(*b),
            count == lines.len(),
            count >= 1,
            buffer::bytes_above(lines, count as int) <= usize::MAX,
            left <= right,
            stop == text::min(right + 1, usize::MAX as int),
            top <= row <= bottom,
            all == Seq::new((bottom - top + 1) as nat, |i: int| right - left + 1),
            more ==> out@ == cut_records(lines, top as int, left as int, all.take(row - top)),
            !more ==> out@ == cut_records(lines, top as int, left as int, all),
        decreases (if more { bottom - row + 1 } else { 0int }),
    {
        push_cut(&mut out, b, row, left, stop);
        proof {
            assert(all.take(row - top + 1).drop_last() =~= all.take(row - top));
            lemma_line_fits(lines, row as int);
            lemma_coords_saturate(
                lines,
                (row as int, stop as int),
                (row as int, left + (right - left + 1)),
            );
        }
        if row < bottom {
            row = row + 1;
        } else {
            more = false;
            assert(all.take(row - top + 1) =~= all);
        }
    }
    out
}

fn chunk_cuts(b: &RopeBuffer, at: Position, widths: &Vec<usize>) -> (out: Vec<ContentEdit>)
    ensures
        out@ == cut_records(
            rope::buffer_lines(*b),
            at.row as int,
            at.col as int,
            Seq::new(widths@.len(), |i: int| widths@[i] as int),
        ),
{
    let ghost lines = rope::buffer_lines(*b);
    let ghost all = Seq::new(widths@.len(), |i: int| widths@[i] as int);
    let count: usize = rope::rope_row_count(b);
    let mut out: Vec<ContentEdit> = Vec::new();
    let mut i: usize = 0;
    assert(all.take(0) =~= Seq::<int>::empty());
    while i < widths.len()
        invariant
            lines == rope::buffer_lines(*b),
            count == lines.len(),
            count >= 1,
            buffer::bytes_above(lines, count as int) <= usize::MAX,
            i <= widths@.len(),
            all == Seq::new(widths@.len(), |k: int| widths@[k] as int),
            out@ == cut_records(lines, at.row as int, at.col as int, all.take(i as int)),
        decreases widths.len() - i,
    {
        let row: usize = text::advance(at.row, i, usize::MAX);
        let stop: usize = text::advance(at.col, widths[i], usize::MAX);
        push_cut(&mut out, b, row, at.col, stop);
        proof {
            lemma_line_fits(lines, row as int);
            assert(all.take(i + 1).drop_last() =~= all.take(i as int));
            let col = at.col as int;
            let end = col + widths@[i as int];
            lemma_coords_saturate(lines, (row as int, col), (at.row + i, col));
            lemma_coords_saturate(lines, (row as int, stop as int), (row as int, end));
            lemma_coords_saturate(lines, (row as int, end), (at.row + i, end));
        }
        i = i + 1;
    }
    assert(all.take(all.len() as int) =~= all);
    out
}

fn chunk_inserts(b: &RopeBuffer, at: Position, chunks: &Vec<String>) -> (out: Vec<ContentEdit>)
    ensures
        out@ == Seq::new(
            chunks@.len(),
            |i: int|
                replacing(
                    rope::buffer_lines(*b),
                    (at.row + i, at.col as int),
                    (at.row + i, at.col as int),
                    chunks@[i]@,
                ),
        ),
{
    let ghost lines = rope::buffer_lines(*b);
    let count: usize = rope::rope_row_count(b);
    let mut out: Vec<ContentEdit> = Vec::new();
    let mut i: usize = 0;
    while i < chunks.len()
        invariant
            lines == rope::buffer_lines(*b),
            count == lines.len(),
            count >= 1,
            i <= chunks@.len(),
            out@ == Seq::new(
                i as nat,
                |k: int|
                    replacing(
                        lines,
                        (at.row + k, at.col as int),
                        (at.row + k, at.col as int),
                        chunks@[k]@,
                    ),
            ),
        decreases chunks.len() - i,
    {
        let place = Position::new(text::advance(at.row, i, usize::MAX), at.col);
        let r = replace_record(b, place, place, chunks[i].as_str());
        proof {
            lemma_coords_saturate(lines, place.spot(), (at.row + i, at.col as int));
        }
        out.push(r);
        i = i + 1;
        assert(out@ =~= Seq::new(
            i as nat,
            |k: int|
                replacing(
                    lines,
                    (at.row + k, at.col as int),
                    (at.row + k, at.col as int),
                    chunks@[k]@,
                ),
        ));
    }
    out
}

fn split_inserts(b: &RopeBuffer, row: usize, cols: &Vec<usize>, space: bool) -> (out: Vec<
    ContentEdit,
>)
    ensures
        ({
            let lines = rope::buffer_lines(*b);
            let at = buffer::row_clamped(lines, row as int);
            out@ == Seq::new(
                cols@.len(),
                |i: int|
                    replacing(
                        lines,
                        (at, cols@[i] as int),
                        (at, cols@[i] as int),
                        if space {
                            seq!['\n', ' ']
                        } else {
                            seq!['\n']
                        },
                    ),
            )
        }),
{
    let ghost lines = rope::buffer_lines(*b);
    let count: usize = rope::rope_row_count(b);
    let at: usize = if row < count {
        row
    } else {
        count - 1
    };
    let mut insert = String::new();
    insert.push('\n');
    if space {
        insert.push(' ');
    }
    let ghost t = if space {
        seq!['\n', ' ']
    } else {
        seq!['\n']
    };
    assert(insert@ =~= t);
    let mut out: Vec<ContentEdit> = Vec::new();
    let mut i: usize = 0;
    while i < cols.len()
        invariant
            lines == rope::buffer_lines(*b),
            at == buffer::row_clamped(lines, row as int),
            i <= cols@.len(),
            insert@ == t,
            out@ == Seq::new(
                i as nat,
                |k: int|
                    replacing(
                        lines,
                        (at as int, cols@[k] as int),
                        (at as int, cols@[k] as int),
                        t,
                    ),
            ),
        decreases cols.len() - i,
    {
        let place = Position::new(at, cols[i]);
        out.push(replace_record(b, place, place, insert.as_str()));
        i = i + 1;
        assert(out@ =~= Seq::new(
            i as nat,
            |k: int|
                replacing(
                    lines,
                    (at as int, cols@[k] as int),
                    (at as int, cols@[k] as int),
                    t,
                ),
        ));
    }
    out
}

fn join_record(b: &RopeBuffer, row: usize, count: usize, space: bool) -> (r: ContentEdit)
    ensures
        content_edits(
            rope::buffer_lines(*b),
            Edit::JoinLines { row, count, with_space: space },
        ) == seq![r],
{
    let ghost lines = rope::buffer_lines(*b);
    let n: usize = rope::rope_row_count(b);
    let at: usize = if row < n {
        row
    } else {
        n - 1
    };
    let to: usize = text::advance(at, count, n - 1);
    proof {
        lemma_coords_fit(lines, at as int, 0);
        lemma_coords_fit(lines, to as int, 0);
    }
    let at_len: usize = line_bytes(b, at);
    let to_len: usize = line_bytes(b, to);
    let start = ByteCoords {
        byte: buffer_byte_of_row(b, at) + at_len,
        position: (at as u32, at_len as u32),
    };
    let end = ByteCoords {
        byte: buffer_byte_of_row(b, to) + to_len,
        position: (to as u32, to_len as u32),
    };
    let extra: usize = if space {
        1
    } else {
        0
    };
    let behind = ByteCoords {
        byte: plus(start.byte, extra),
        position: (start.position.0, start.position.1.wrapping_add(extra as u32)),
    };
    make_record(&start, &end, &behind)
}

/// The bytes of a row of the buffer.
fn line_bytes(b: &RopeBuffer, row: usize) -> (n: usize)
    requires
        row < rope::buffer_lines(*b).len(),
    ensures
        n == text::byte_len(rope::buffer_lines(*b)[row as int]),
{
    match rope::rope_line(b, row) {
        Some(s) => text::byte_length(s),
        None => 0,
    }
}

fn rows_record(b: &RopeBuffer, lo: usize, hi: usize) -> (r: ContentEdit)
    requires
        lo <= hi,
    ensures
        ({
            let lines = rope::buffer_lines(*b);
            let first = ByteCoords {
                byte: row_byte(lines, lo as int) as usize,
                position: (lo as u32, 0),
            };
            let last = text::min(hi as int, lines.len() - 1);
            let behind = ByteCoords {
                byte: row_byte(lines, last + 1) as usize,
                position: ((last as u32).wrapping_add(1), 0),
            };
            r == record(first, behind, first)
        }),
{
    let n: usize = rope::rope_row_count(b);
    let last: usize = if hi < n {
        hi
    } else {
        n - 1
    };
    let first = ByteCoords { byte: buffer_byte_of_row(b, lo), position: (lo as u32, 0) };
    let behind = ByteCoords {
        byte: buffer_byte_of_row(b, last + 1),
        position: ((last as u32).wrapping_add(1), 0),
    };
    make_record(&first, &behind, &first)
}

fn one_record(r: ContentEdit) -> (v: Vec<ContentEdit>)
    ensures
        v@ == seq![r],
{
    vec![r]
}

/// The byte records of an edit, taken before the edit is applied. Block edits
/// have one record per row that changes and a split has one per column; every
/// other edit has one.
pub fn content_edits_from_buffer_edit(b: &RopeBuffer, edit: &Edit) -> (out: Vec<ContentEdit>)
    ensures
        out@ == content_edits(rope::buffer_lines(*b), *edit),
{
    let ghost lines = rope::buffer_lines(*b);
    match edit {
        Edit::InsertChar { at, ch } => {
            let mut t = String::new();
            t.push(*ch);
            assert(t@ =~= seq![*ch]);
            one_record(replace_record(b, *at, *at, t.as_str()))
        },
        Edit::InsertStr { at, text: t } => one_record(replace_record(b, *at, *at, t.as_str())),
        Edit::DeleteRange { start, end, kind } => {
            let forward = start.row < end.row || (start.row == end.row && start.col <= end.col);
            let from = if forward {
                *start
            } else {
                *end
            };
            let to = if forward {
                *end
            } else {
                *start
            };
            match kind {
                MotionKind::Char => {
                    proof {
                        reveal_strlit("");
                        assert(""@ =~= Seq::<char>::empty());
                    }
                    one_record(replace_record(b, from, to, ""))
                },
                MotionKind::Line => one_record(rows_record(b, from.row, to.row)),
                MotionKind::Block => {
                    let left: usize = if from.col < to.col {
                        from.col
                    } else {
                        to.col
                    };
                    let right: usize = if from.col < to.col {
                        to.col
                    } else {
                        from.col
                    };
                    let out = block_cuts(b, from.row, to.row, left, right);
                    assert(Seq::new(
                        (to.row - from.row + 1) as nat,
                        |i: int| right - left + 1,
                    ) =~= Seq::new(
                        (to.row - from.row + 1) as nat,
                        |i: int|
                            text::max(from.col as int, to.col as int) - text::min(
                                from.col as int,
                                to.col as int,
                            ) + 1,
                    ));
                    out
                },
            }
        },
        Edit::Replace { start, end, with } => {
            let forward = start.row < end.row || (start.row == end.row && start.col <= end.col);
            let from = if forward {
                *start
            } else {
                *end
            };
            let to = if forward {
                *end
            } else {
                *start
            };
            one_record(replace_record(b, from, to, with.as_str()))
        },
        Edit::JoinLines { row, count, with_space } => one_record(
            join_record(b, *row, *count, *with_space),
        ),
        Edit::SplitLines { row, cols, inserted_space } => split_inserts(
            b,
            *row,
            cols,
            *inserted_space,
        ),
        Edit::InsertBlock { at, chunks } => chunk_inserts(b, *at, chunks),
        Edit::DeleteBlockChunks { at, widths } => chunk_cuts(b, *at, widths),
    }
}

/// The byte column behind a text that starts at byte column `col`.
pub open spec fn col_behind(col: int, t: Seq<char>) -> int {
    let pieces = buffer::split_text(t);
    text::byte_len(pieces.last()) + if pieces.len() == 1 {
        col
    } else {
        0int
    }
}

/// Advancing over two texts in turn is advancing over both, and advancing over
/// nothing leads nowhere.
pub proof fn law_advance_in_parts(start: ByteCoords, a: Seq<char>, b: Seq<char>)
    requires
        start.byte + text::byte_len(a) + text::byte_len(b) <= usize::MAX,
        start.position.0 + buffer::split_text(a).len() + buffer::split_text(b).len() - 2
            <= u32::MAX,
        col_behind(start.position.1 as int, a) <= u32::MAX,
        col_behind(col_behind(start.position.1 as int, a), b) <= u32::MAX,
    ensures
        after_text(after_text(start, a), b) == after_text(start, a + b),
        after_text(start, Seq::<char>::empty()) == start,
{
    let p = buffer::split_text(a);
    let q = buffer::split_text(b);
    edits::lemma_split_clean(a);
    edits::lemma_split_clean(b);
    edits::lemma_split_concat(a, b);
    edits::lemma_join_split(a);
    edits::lemma_join_split(b);
    text::lemma_byte_len_concat(a, b);
    text::lemma_byte_len_concat(p.last(), q[0]);
    lemma_last_piece(a);
    lemma_last_piece(b);
    let both = buffer::split_text(a + b);
    assert(both.len() == p.len() + q.len() - 1);
    if q.len() > 1 {
        assert(both.last() == q.last());
    } else {
        assert(both.last() == p.last() + q[0]);
    }
}

/// The last piece of a text takes no more bytes than the text.
proof fn lemma_last_piece(t: Seq<char>)
    ensures
        text::byte_len(buffer::split_text(t).last()) <= text::byte_len(t),
    decreases t.len(),
{
    if t.len() > 0 {
        lemma_last_piece(t.drop_last());
        let head = buffer::split_text(t.drop_last());
        if t.last() != '\n' {
            assert(head.last().push(t.last()).drop_last() =~= head.last());
        }
    }
}

} // verus!
