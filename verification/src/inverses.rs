//! What every edit keeps, and on which texts an edit is taken back by its
//! inverse.
use vstd::prelude::*;

use crate::buffer;
use crate::buffer::{Edit, MotionKind};
use crate::edits;
use crate::edits::EditView;
use crate::text;

verus! {

// ── Lines stay lines ────────────────────────────────────────────────

/// No line holds a line break.
pub open spec fn all_unbroken(lines: Seq<Seq<char>>) -> bool {
    forall|i: int| 0 <= i < lines.len() ==> edits::unbroken(#[trigger] lines[i])
}

proof fn lemma_parts_unbroken(lines: Seq<Seq<char>>, from: int, to: int)
    requires
        all_unbroken(lines),
        0 <= from <= to <= lines.len(),
    ensures
        all_unbroken(lines.subrange(from, to)),
        all_unbroken(lines.take(from)),
        all_unbroken(lines.skip(to)),
{
    assert forall|i: int| 0 <= i < to - from implies edits::unbroken(
        #[trigger] lines.subrange(from, to)[i],
    ) by {
        assert(edits::unbroken(lines[from + i]));
    }
    assert forall|i: int| 0 <= i < from implies edits::unbroken(#[trigger] lines.take(from)[i]) by {
        assert(edits::unbroken(lines[i]));
    }
    assert forall|i: int| 0 <= i < lines.len() - to implies edits::unbroken(
        #[trigger] lines.skip(to)[i],
    ) by {
        assert(edits::unbroken(lines[to + i]));
    }
}

proof fn lemma_three_unbroken(a: Seq<Seq<char>>, b: Seq<Seq<char>>, c: Seq<Seq<char>>)
    requires
        all_unbroken(a),
        all_unbroken(b),
        all_unbroken(c),
    ensures
        all_unbroken(a + b + c),
{
    let s = a + b + c;
    assert forall|i: int| 0 <= i < s.len() implies edits::unbroken(#[trigger] s[i]) by {
        if i < a.len() {
            assert(s[i] == a[i]);
        } else if i < a.len() + b.len() {
            assert(s[i] == b[i - a.len()]);
        } else {
            assert(s[i] == c[i - a.len() - b.len()]);
        }
    }
}

proof fn lemma_concat_unbroken(a: Seq<char>, b: Seq<char>)
    requires
        edits::unbroken(a),
        edits::unbroken(b),
    ensures
        edits::unbroken(a + b),
{
    assert forall|i: int| 0 <= i < (a + b).len() implies #[trigger] (a + b)[i] != '\n' by {
        if i < a.len() {
            assert(a[i] != '\n');
        } else {
            assert(b[i - a.len()] != '\n');
        }
    }
}

proof fn lemma_columns_removed_unbroken(line: Seq<char>, left: int, right: int)
    requires
        edits::unbroken(line),
        0 <= left,
        0 <= right,
    ensures
        edits::unbroken(buffer::columns_removed(line, left, right)),
{
    let l = text::min(left, line.len() as int);
    let r = text::min(right, line.len() as int);
    edits::lemma_unbroken_parts(line, l);
    edits::lemma_unbroken_parts(line, r);
    lemma_concat_unbroken(line.take(l), line.skip(r));
}

proof fn lemma_spliced_clean(lines: Seq<Seq<char>>, at: (int, int), t: Seq<char>)
    requires
        all_unbroken(lines),
        0 <= at.0 < lines.len(),
        0 <= at.1,
    ensures
        all_unbroken(buffer::spliced(lines, at, t)),
        buffer::spliced(lines, at, t).len() >= lines.len(),
{
    let line = lines[at.0];
    let col = text::min(at.1, line.len() as int);
    let mid = line.take(col) + t + line.skip(col);
    edits::lemma_split_clean(mid);
    lemma_parts_unbroken(lines, at.0, at.0 + 1);
    lemma_three_unbroken(lines.take(at.0), buffer::split_text(mid), lines.skip(at.0 + 1));
}

proof fn lemma_joined_unbroken(lines: Seq<Seq<char>>, row: int, n: nat, space: bool)
    requires
        all_unbroken(lines),
        0 <= row,
        row + n < lines.len(),
    ensures
        edits::unbroken(buffer::joined(lines, row, n, space)),
    decreases n,
{
    if n == 0 {
        assert(edits::unbroken(lines[row]));
    } else {
        lemma_joined_unbroken(lines, row, (n - 1) as nat, space);
        let head = buffer::joined(lines, row, (n - 1) as nat, space);
        assert(edits::unbroken(lines[row + n]));
        assert(edits::unbroken(seq![' ']));
        lemma_concat_unbroken(head, seq![' ']);
        lemma_concat_unbroken(head + seq![' '], lines[row + n]);
        lemma_concat_unbroken(head, lines[row + n]);
    }
}

proof fn lemma_split_at_cols_unbroken(line: Seq<char>, cols: Seq<usize>, space: bool)
    requires
        edits::unbroken(line),
    ensures
        all_unbroken(buffer::split_at_cols(line, cols, space)),
        buffer::split_at_cols(line, cols, space).len() == cols.len() + 1,
    decreases cols.len(),
{
    if cols.len() > 0 {
        let col = text::min(cols.last() as int, line.len() as int);
        edits::lemma_unbroken_parts(line, col);
        let tail = line.skip(col);
        if tail.len() > 0 {
            edits::lemma_unbroken_parts(tail, 1);
        }
        lemma_split_at_cols_unbroken(line.take(col), cols.drop_last(), space);
        let head = buffer::split_at_cols(line.take(col), cols.drop_last(), space);
        let all = buffer::split_at_cols(line, cols, space);
        assert forall|i: int| 0 <= i < all.len() implies edits::unbroken(#[trigger] all[i]) by {
            if i < head.len() {
                assert(all[i] == head[i]);
            }
        }
    }
}

proof fn lemma_block_inserted_clean(lines: Seq<Seq<char>>, at: (int, int), chunks: Seq<Seq<char>>)
    requires
        all_unbroken(lines),
        0 <= at.0,
        0 <= at.1,
        buffer::block_fits(lines, at, chunks),
    ensures
        all_unbroken(buffer::block_inserted(lines, at, chunks)),
        buffer::block_inserted(lines, at, chunks).len() >= lines.len(),
    decreases chunks.len(),
{
    if chunks.len() > 0 {
        let fewer = chunks.drop_last();
        assert forall|i: int| 0 <= i < fewer.len() implies buffer::chunk_fits(
            #[trigger] buffer::block_inserted(lines, at, fewer.take(i)),
            at.0 + i,
            at.1,
        ) by {
            assert(fewer.take(i) =~= chunks.take(i));
        }
        assert(chunks.take(chunks.len() - 1) =~= fewer);
        lemma_block_inserted_clean(lines, at, fewer);
        let before = buffer::block_inserted(lines, at, chunks.drop_last());
        let row = at.0 + chunks.len() - 1;
        let line = before[row];
        assert(edits::unbroken(before[row]));
        if line.len() < at.1 {
            let blanks = Seq::new((at.1 - line.len()) as nat, |i: int| ' ');
            assert(edits::unbroken(blanks));
            lemma_concat_unbroken(line, blanks);
        }
        let wide = before.update(row, buffer::padded(line, at.1));
        assert forall|i: int| 0 <= i < wide.len() implies edits::unbroken(#[trigger] wide[i]) by {
            if i != row {
                assert(wide[i] == before[i]);
            }
        }
        lemma_spliced_clean(wide, (row, at.1), chunks.last());
    }
}

/// Whatever edit is applied to lines that hold no line break, there is at
/// least one line after it, and none holds a line break.
pub proof fn law_edits_keep_lines(lines: Seq<Seq<char>>, edit: Edit)
    requires
        edits::clean(lines),
        edits::applicable(lines, edits::edit_view(edit)),
    ensures
        edits::clean(edits::applied(lines, edits::edit_view(edit)).0),
{
    let n = lines.len() as int;
    assert(all_unbroken(lines));
    let after = edits::applied(lines, edits::edit_view(edit)).0;
    match edits::edit_view(edit) {
        EditView::InsertStr { at, text: t } => {
            lemma_spliced_clean(lines, buffer::clamp(lines, at), t);
        },
        EditView::DeleteRange { start, end, kind } => match kind {
            MotionKind::Char => {
                lemma_cut_unbroken(lines, buffer::earlier(start, end), buffer::later(start, end));
            },
            MotionKind::Line => {
                let lo = text::min(start.0, end.0);
                let hi = text::min(text::max(start.0, end.0), n - 1);
                if lo <= hi {
                    lemma_parts_unbroken(lines, lo, hi + 1);
                } else {
                    lemma_parts_unbroken(lines, lo, lo);
                }
                let none = Seq::<Seq<char>>::empty();
                lemma_three_unbroken(lines.take(lo), none, lines.skip(hi + 1));
                assert(lines.take(lo) + none + lines.skip(hi + 1) =~= lines.take(lo) + lines.skip(
                    hi + 1,
                ));
            },
            MotionKind::Block => {
                assert forall|i: int| 0 <= i < n implies edits::unbroken(#[trigger] after[i]) by {
                    assert(edits::unbroken(lines[i]));
                    lemma_columns_removed_unbroken(
                        lines[i],
                        text::min(start.1, end.1),
                        text::max(start.1, end.1) + 1,
                    );
                }
            },
        },
        EditView::JoinLines { row, count, with_space } => {
            let at = buffer::row_clamped(lines, row);
            let k = buffer::rows_to_join(lines, row, count);
            lemma_joined_unbroken(lines, at, k as nat, with_space);
            lemma_parts_unbroken(lines, at, at + k + 1);
            let one = seq![buffer::joined(lines, at, k as nat, with_space)];
            lemma_three_unbroken(lines.take(at), one, lines.skip(at + k + 1));
        },
        EditView::SplitLines { row, cols, inserted_space } => {
            let at = buffer::row_clamped(lines, row);
            assert(edits::unbroken(lines[at]));
            lemma_split_at_cols_unbroken(lines[at], cols, inserted_space);
            lemma_parts_unbroken(lines, at, at + 1);
            lemma_three_unbroken(
                lines.take(at),
                buffer::split_at_cols(lines[at], cols, inserted_space),
                lines.skip(at + 1),
            );
        },
        EditView::Replace { start, end, with } => {
            let from = buffer::earlier(start, end);
            lemma_cut_unbroken(lines, from, buffer::later(start, end));
            let rest = buffer::cut(lines, from, buffer::later(start, end));
            lemma_spliced_clean(rest, buffer::clamp(rest, from), with);
        },
        EditView::InsertBlock { at, chunks } => {
            lemma_block_inserted_clean(lines, at, chunks);
        },
        EditView::DeleteBlockChunks { at, widths } => {
            assert forall|i: int| 0 <= i < n implies edits::unbroken(#[trigger] after[i]) by {
                assert(edits::unbroken(lines[i]));
                if at.0 <= i < at.0 + widths.len() {
                    lemma_columns_removed_unbroken(lines[i], at.1, at.1 + widths[i - at.0]);
                }
            }
        },
    }
}

proof fn lemma_cut_unbroken(lines: Seq<Seq<char>>, start: (int, int), end: (int, int))
    requires
        all_unbroken(lines),
        0 <= start.0 <= end.0 < lines.len(),
        0 <= start.1,
        0 <= end.1,
    ensures
        all_unbroken(buffer::cut(lines, start, end)),
        buffer::cut(lines, start, end).len() > start.0,
{
    let a = text::min(start.1, lines[start.0].len() as int);
    let b = text::min(end.1, lines[end.0].len() as int);
    assert(edits::unbroken(lines[start.0]) && edits::unbroken(lines[end.0]));
    edits::lemma_unbroken_parts(lines[start.0], a);
    edits::lemma_unbroken_parts(lines[end.0], b);
    lemma_concat_unbroken(lines[start.0].take(a), lines[end.0].skip(b));
    lemma_parts_unbroken(lines, start.0, end.0 + 1);
    let one = seq![lines[start.0].take(a) + lines[end.0].skip(b)];
    lemma_three_unbroken(lines.take(start.0), one, lines.skip(end.0 + 1));
}

/// Wherever an edit sends the cursor, the cursor ends on a line, at most one
/// column behind its last character.
pub proof fn law_cursor_lands_in_text(lines: Seq<Seq<char>>, at: (int, int))
    requires
        lines.len() > 0,
        0 <= at.0,
        0 <= at.1,
    ensures
        buffer::in_text(lines, buffer::clamp(lines, at)),
        buffer::in_text(lines, at) ==> buffer::clamp(lines, at) == at,
{
}

// ── Taking an edit back ─────────────────────────────────────────────

/// An edit is taken back by its inverse: the inverse can be applied, and it
/// brings the lines back.
pub open spec fn taken_back(lines: Seq<Seq<char>>, e: EditView) -> bool {
    let after = edits::applied(lines, e).0;
    let back = edits::inverse(lines, e);
    &&& edits::applicable(after, back)
    &&& edits::applied(after, back).0 == lines
}

/// Rows that were deleted come back, where rows follow them. (Without a row
/// behind them they come back in another place.)
pub proof fn law_row_deletion_is_taken_back(
    lines: Seq<Seq<char>>,
    start: (int, int),
    end: (int, int),
)
    requires
        edits::clean(lines),
        0 <= start.0,
        0 <= end.0,
        text::max(start.0, end.0) < lines.len() - 1,
    ensures
        taken_back(lines, EditView::DeleteRange { start, end, kind: MotionKind::Line }),
{
    let lo = text::min(start.0, end.0);
    let hi = text::max(start.0, end.0);
    let rows = lines.subrange(lo, hi + 1);
    let next = lines[hi + 1];
    let t = buffer::join_text(rows);
    let after = lines.take(lo) + lines.skip(hi + 1);
    assert(edits::clean(rows)) by {
        assert(all_unbroken(lines));
        lemma_parts_unbroken(lines, lo, hi + 1);
    }
    edits::lemma_split_join(rows);
    assert(t.push('\n').drop_last() =~= t);
    assert(buffer::split_text(t.push('\n')) =~= rows.push(Seq::<char>::empty()));
    edits::lemma_split_concat(t.push('\n'), next);
    assert(edits::unbroken(lines[hi + 1]));
    edits::lemma_split_unbroken(next);
    let p = rows.push(Seq::<char>::empty());
    assert(p.drop_last() =~= rows);
    assert(Seq::<char>::empty() + next =~= next);
    assert(seq![next].skip(1) =~= Seq::<Seq<char>>::empty());
    assert(after[lo] == next);
    assert(next.take(0) + t.push('\n') + next.skip(0) =~= t.push('\n') + next);
    assert(buffer::split_text(t.push('\n') + next) =~= rows.push(next));
    assert(after.take(lo) =~= lines.take(lo));
    assert(after.skip(lo + 1) =~= lines.skip(hi + 2));
    assert(lines.take(lo) + rows.push(next) + lines.skip(hi + 2) =~= lines);
}

/// Inserting the chunks that were taken out of a block brings the lines back.
proof fn lemma_block_back(
    lines: Seq<Seq<char>>,
    after: Seq<Seq<char>>,
    at: (int, int),
    chunks: Seq<Seq<char>>,
    k: int,
)
    requires
        all_unbroken(lines),
        after.len() == lines.len(),
        0 <= at.0,
        0 <= at.1,
        at.0 + chunks.len() <= lines.len(),
        0 <= k <= chunks.len(),
        forall|i: int|
            0 <= i < chunks.len() ==> (#[trigger] after[at.0 + i]).len() >= at.1 && after[at.0
                + i].take(at.1) + chunks[i] + after[at.0 + i].skip(at.1) == lines[at.0 + i],
    ensures
        buffer::block_inserted(after, at, chunks.take(k)) == Seq::new(
            lines.len(),
            |i: int|
                if at.0 <= i < at.0 + k {
                    lines[i]
                } else {
                    after[i]
                },
        ),
    decreases k,
{
    let goal = Seq::new(
        lines.len(),
        |i: int|
            if at.0 <= i < at.0 + k {
                lines[i]
            } else {
                after[i]
            },
    );
    if k == 0 {
        assert(buffer::block_inserted(after, at, chunks.take(0)) =~= goal);
    } else {
        lemma_block_back(lines, after, at, chunks, k - 1);
        assert(chunks.take(k).drop_last() =~= chunks.take(k - 1));
        let before = buffer::block_inserted(after, at, chunks.take(k - 1));
        let row = at.0 + k - 1;
        let line = after[at.0 + (k - 1)];
        assert(before[row] == line);
        assert(before.update(row, line) =~= before);
        assert(edits::unbroken(lines[row]));
        edits::lemma_split_unbroken(lines[row]);
        assert(buffer::spliced(before, (row, at.1), chunks[k - 1]) =~= before.take(row) + seq![
            lines[row],
        ] + before.skip(row + 1));
        assert(before.take(row) + seq![lines[row]] + before.skip(row + 1) =~= goal);
    }
}

/// A block that was deleted comes back, where its rows reach its first column.
/// (A shorter row would come back filled with spaces.)
pub proof fn law_block_deletion_is_taken_back(
    lines: Seq<Seq<char>>,
    start: (int, int),
    end: (int, int),
)
    requires
        edits::clean(lines),
        0 <= start.0 < lines.len(),
        0 <= end.0 < lines.len(),
        0 <= start.1 < usize::MAX,
        0 <= end.1 < usize::MAX,
        forall|i: int|
            text::min(start.0, end.0) <= i <= text::max(start.0, end.0) ==> (
            #[trigger] lines[i]).len() >= text::min(start.1, end.1),
    ensures
        taken_back(lines, EditView::DeleteRange { start, end, kind: MotionKind::Block }),
{
    let at = buffer::block_corner(start, end);
    let right = text::max(start.1, end.1) + 1;
    let after = buffer::block_removed(lines, start, end);
    let chunks = buffer::block_text(lines, start, end);
    assert(all_unbroken(lines));
    assert forall|i: int| 0 <= i < chunks.len() implies (#[trigger] after[at.0 + i]).len() >= at.1
        && after[at.0 + i].take(at.1) + chunks[i] + after[at.0 + i].skip(at.1) == lines[at.0
        + i] by {
        lemma_columns_back(lines[at.0 + i], at.1, right);
    }
    assert forall|i: int| 0 <= i < chunks.len() implies buffer::chunk_fits(
        #[trigger] buffer::block_inserted(after, at, chunks.take(i)),
        at.0 + i,
        at.1,
    ) by {
        lemma_block_back(lines, after, at, chunks, i);
        assert(after[at.0 + i].len() >= at.1);
    }
    lemma_block_back(lines, after, at, chunks, chunks.len() as int);
    assert(chunks.take(chunks.len() as int) =~= chunks);
    assert(buffer::block_inserted(after, at, chunks) =~= lines);
}

proof fn lemma_columns_back(line: Seq<char>, left: int, right: int)
    requires
        0 <= left <= right,
        left <= line.len(),
    ensures
        ({
            let rest = buffer::columns_removed(line, left, right);
            &&& rest.len() >= left
            &&& rest.take(left) + buffer::columns(line, left, right) + rest.skip(left) == line
        }),
{
    let rest = buffer::columns_removed(line, left, right);
    let r = text::min(right, line.len() as int);
    assert(rest.take(left) =~= line.take(left));
    assert(rest.skip(left) =~= line.skip(r));
    assert(line.take(left) + line.subrange(left, r) + line.skip(r) =~= line);
}

/// Chunks that were deleted from the rows of a block come back, where the rows
/// reach its column. (A shorter row would come back filled with spaces.)
pub proof fn law_chunk_deletion_is_taken_back(
    lines: Seq<Seq<char>>,
    at: (int, int),
    widths: Seq<usize>,
)
    requires
        edits::clean(lines),
        0 <= at.0,
        0 <= at.1,
        at.0 + widths.len() <= lines.len(),
        forall|i: int| at.0 <= i < at.0 + widths.len() ==> (#[trigger] lines[i]).len() >= at.1,
    ensures
        taken_back(lines, EditView::DeleteBlockChunks { at, widths }),
{
    let after = buffer::chunks_removed(lines, at, widths);
    let chunks = buffer::chunks_text(lines, at, widths);
    assert(all_unbroken(lines));
    assert forall|i: int| 0 <= i < chunks.len() implies (#[trigger] after[at.0 + i]).len() >= at.1
        && after[at.0 + i].take(at.1) + chunks[i] + after[at.0 + i].skip(at.1) == lines[at.0
        + i] by {
        lemma_columns_back(lines[at.0 + i], at.1, at.1 + widths[i]);
    }
    assert forall|i: int| 0 <= i < chunks.len() implies buffer::chunk_fits(
        #[trigger] buffer::block_inserted(after, at, chunks.take(i)),
        at.0 + i,
        at.1,
    ) by {
        lemma_block_back(lines, after, at, chunks, i);
        assert(after[at.0 + i].len() >= at.1);
    }
    lemma_block_back(lines, after, at, chunks, chunks.len() as int);
    assert(chunks.take(chunks.len() as int) =~= chunks);
    assert(buffer::block_inserted(after, at, chunks) =~= lines);
}

/// The lines after the first `k` chunks of a block were inserted into rows
/// that reach its column.
proof fn lemma_block_inserted(
    lines: Seq<Seq<char>>,
    at: (int, int),
    chunks: Seq<Seq<char>>,
    k: int,
)
    requires
        all_unbroken(lines),
        all_unbroken(chunks),
        0 <= at.0,
        0 <= at.1,
        at.0 + chunks.len() <= lines.len(),
        0 <= k <= chunks.len(),
        forall|i: int| at.0 <= i < at.0 + chunks.len() ==> (#[trigger] lines[i]).len() >= at.1,
    ensures
        buffer::block_inserted(lines, at, chunks.take(k)) == Seq::new(
            lines.len(),
            |i: int|
                if at.0 <= i < at.0 + k {
                    lines[i].take(at.1) + chunks[i - at.0] + lines[i].skip(at.1)
                } else {
                    lines[i]
                },
        ),
    decreases k,
{
    let goal = Seq::new(
        lines.len(),
        |i: int|
            if at.0 <= i < at.0 + k {
                lines[i].take(at.1) + chunks[i - at.0] + lines[i].skip(at.1)
            } else {
                lines[i]
            },
    );
    if k == 0 {
        assert(buffer::block_inserted(lines, at, chunks.take(0)) =~= goal);
    } else {
        lemma_block_inserted(lines, at, chunks, k - 1);
        assert(chunks.take(k).drop_last() =~= chunks.take(k - 1));
        let before = buffer::block_inserted(lines, at, chunks.take(k - 1));
        let row = at.0 + k - 1;
        let line = lines[row];
        assert(before[row] == line);
        assert(before.update(row, line) =~= before);
        assert(edits::unbroken(lines[row]) && edits::unbroken(chunks[k - 1]));
        edits::lemma_unbroken_parts(line, at.1);
        lemma_concat_unbroken(line.take(at.1), chunks[k - 1]);
        lemma_concat_unbroken(line.take(at.1) + chunks[k - 1], line.skip(at.1));
        let grown = line.take(at.1) + chunks[k - 1] + line.skip(at.1);
        edits::lemma_split_unbroken(grown);
        assert(buffer::spliced(before, (row, at.1), chunks[k - 1]) =~= before.take(row) + seq![
            grown,
        ] + before.skip(row + 1));
        assert(before.take(row) + seq![grown] + before.skip(row + 1) =~= goal);
    }
}

/// A block that was inserted goes away again, where its chunks hold no line
/// break and its rows reach its column. (The spaces that fill a shorter row
/// would stay.)
pub proof fn law_block_insertion_is_taken_back(
    lines: Seq<Seq<char>>,
    at: (int, int),
    chunks: Seq<Seq<char>>,
)
    requires
        edits::clean(lines),
        all_unbroken(chunks),
        0 <= at.0,
        0 <= at.1,
        at.0 + chunks.len() <= lines.len(),
        forall|i: int| at.0 <= i < at.0 + chunks.len() ==> (#[trigger] lines[i]).len() >= at.1,
        forall|i: int| 0 <= i < chunks.len() ==> at.1 + (#[trigger] chunks[i]).len() <= usize::MAX,
    ensures
        taken_back(lines, EditView::InsertBlock { at, chunks }),
{
    assert(all_unbroken(lines));
    lemma_block_inserted(lines, at, chunks, chunks.len() as int);
    assert(chunks.take(chunks.len() as int) =~= chunks);
    let after = buffer::block_inserted(lines, at, chunks);
    let w = buffer::widths(chunks);
    assert forall|i: int| 0 <= i < w.len() implies at.1 + (#[trigger] w[i]) <= usize::MAX by {
        assert(at.1 + chunks[i].len() <= usize::MAX);
    }
    let back = buffer::chunks_removed(after, at, w);
    assert forall|i: int| 0 <= i < lines.len() implies #[trigger] back[i] == lines[i] by {
        if at.0 <= i < at.0 + chunks.len() {
            let c = chunks[i - at.0];
            assert(w[i - at.0] == c.len());
            let line = lines[i];
            let grown = line.take(at.1) + c + line.skip(at.1);
            assert(grown.take(at.1) =~= line.take(at.1));
            assert(grown.skip(at.1 + c.len()) =~= line.skip(at.1));
            assert(line.take(at.1) + line.skip(at.1) =~= line);
        }
    }
    assert(back =~= lines);
}

/// Joined rows only grow.
proof fn lemma_joined_grows(lines: Seq<Seq<char>>, row: int, i: nat, n: nat, space: bool)
    requires
        i <= n,
    ensures
        buffer::joined(lines, row, i, space).len() <= buffer::joined(lines, row, n, space).len(),
    decreases n,
{
    if i < n {
        lemma_joined_grows(lines, row, i, (n - 1) as nat, space);
    }
}

/// Cutting a joined row where its rows met gives the rows again.
proof fn lemma_cut_at_joins(lines: Seq<Seq<char>>, row: int, n: int, space: bool, k: int)
    requires
        0 <= row,
        row + n < lines.len(),
        0 <= k <= n,
        buffer::joined(lines, row, n as nat, space).len() <= usize::MAX,
        space ==> spaces_show(lines, row, n),
    ensures
        ({
            let cols = Seq::new(
                n as nat,
                |i: int| buffer::joined(lines, row, i as nat, space).len() as usize,
            );
            buffer::split_at_cols(
                buffer::joined(lines, row, k as nat, space),
                cols.take(k),
                space,
            ) == lines.subrange(row, row + k + 1)
        }),
    decreases k,
{
    let cols = Seq::new(
        n as nat,
        |i: int| buffer::joined(lines, row, i as nat, space).len() as usize,
    );
    if k == 0 {
        assert(lines.subrange(row, row + 1) =~= seq![lines[row]]);
    } else {
        lemma_cut_at_joins(lines, row, n, space, k - 1);
        lemma_joined_grows(lines, row, (k - 1) as nat, n as nat, space);
        let head = buffer::joined(lines, row, (k - 1) as nat, space);
        let all = buffer::joined(lines, row, k as nat, space);
        let next = lines[row + k];
        assert(cols.take(k).drop_last() =~= cols.take(k - 1));
        assert(cols.take(k).last() == head.len());
        assert(all.take(head.len() as int) =~= head);
        let tail = all.skip(head.len() as int);
        if space && head.len() > 0 && next.len() > 0 {
            assert(tail =~= seq![' '] + next);
            assert(tail.skip(1) =~= next);
        } else {
            assert(tail =~= next);
            if space && next.len() > 0 && head.len() == 0 {
                lemma_joined_empty(lines, row, (k - 1) as nat, space);
                assert(next[0] != ' ');
            }
        }
        assert(lines.subrange(row, row + k + 1) =~= lines.subrange(row, row + k).push(next));
    }
}

/// Only empty rows join to an empty row.
proof fn lemma_joined_empty(lines: Seq<Seq<char>>, row: int, n: nat, space: bool)
    requires
        buffer::joined(lines, row, n, space).len() == 0,
    ensures
        forall|i: int| 0 <= i <= n ==> (#[trigger] lines[row + i]).len() == 0,
    decreases n,
{
    if n > 0 {
        lemma_joined_empty(lines, row, (n - 1) as nat, space);
        assert forall|i: int| 0 <= i <= n implies (#[trigger] lines[row + i]).len() == 0 by {
            if i < n {
                assert(lines[row + i].len() == 0);
            } else {
                let head = buffer::joined(lines, row, (n - 1) as nat, space);
                assert(buffer::joined(lines, row, n, space).len() >= lines[row + n].len());
            }
        }
    }
}

/// No row from `row + 1` to `row + n` starts with a space while all rows from
/// `row` up to it are empty.
pub open spec fn spaces_show(lines: Seq<Seq<char>>, row: int, n: int) -> bool {
    forall|k: int|
        1 <= k <= n && (#[trigger] lines[row + k]).len() > 0 && (forall|i: int|
            0 <= i < k ==> (#[trigger] lines[row + i]).len() == 0) ==> lines[row + k][0] != ' '
}

/// Joined rows come apart again. With a space between them that holds unless
/// only empty rows precede a row that starts with a space: that space would be
/// taken for the one put between rows.
pub proof fn law_join_is_taken_back(lines: Seq<Seq<char>>, row: int, count: int, with_space: bool)
    requires
        edits::clean(lines),
        0 <= row,
        0 <= count,
        buffer::joined(
            lines,
            buffer::row_clamped(lines, row),
            buffer::rows_to_join(lines, row, count) as nat,
            with_space,
        ).len() <= usize::MAX,
        with_space ==> spaces_show(
            lines,
            buffer::row_clamped(lines, row),
            buffer::rows_to_join(lines, row, count),
        ),
    ensures
        taken_back(lines, EditView::JoinLines { row, count, with_space }),
{
    let at = buffer::row_clamped(lines, row);
    let n = buffer::rows_to_join(lines, row, count);
    let all = buffer::joined(lines, at, n as nat, with_space);
    let after = buffer::rows_joined(lines, row, count, with_space);
    let cols = buffer::join_cols(lines, row, count, with_space);
    lemma_cut_at_joins(lines, at, n, with_space, n);
    assert(cols =~= Seq::new(
        n as nat,
        |i: int| buffer::joined(lines, at, i as nat, with_space).len() as usize,
    ));
    assert(cols.take(n) =~= cols);
    assert(after[at] == all);
    assert(after.take(at) =~= lines.take(at));
    assert(after.skip(at + 1) =~= lines.skip(at + n + 1));
    assert(lines.take(at) + lines.subrange(at, at + n + 1) + lines.skip(at + n + 1) =~= lines);
}

/// Each cut of a line is made at a space that stands between two characters,
/// or at an end of what is left of it.
pub open spec fn cuts_at_spaces(line: Seq<char>, cols: Seq<usize>) -> bool
    decreases cols.len(),
{
    if cols.len() == 0 {
        true
    } else {
        let col = text::min(cols.last() as int, line.len() as int);
        let head = line.take(col);
        let tail = line.skip(col);
        &&& if tail.len() > 0 && tail[0] == ' ' {
            head.len() > 0 && tail.len() > 1
        } else {
            head.len() == 0 || tail.len() == 0
        }
        &&& cuts_at_spaces(head, cols.drop_last())
    }
}

/// Rows that are the same join to the same row.
proof fn lemma_joined_same(
    a: Seq<Seq<char>>,
    i: int,
    b: Seq<Seq<char>>,
    j: int,
    n: nat,
    space: bool,
)
    requires
        forall|k: int| 0 <= k <= n ==> #[trigger] a[i + k] == b[j + k],
    ensures
        buffer::joined(a, i, n, space) == buffer::joined(b, j, n, space),
    decreases n,
{
    assert(a[i + 0] == b[j + 0]);
    if n > 0 {
        lemma_joined_same(a, i, b, j, (n - 1) as nat, space);
        assert(a[i + n] == b[j + n]);
    }
}

/// The pieces of a cut line join to the line.
proof fn lemma_join_pieces(line: Seq<char>, cols: Seq<usize>, space: bool)
    requires
        space ==> cuts_at_spaces(line, cols),
    ensures
        buffer::split_at_cols(line, cols, space).len() == cols.len() + 1,
        buffer::joined(buffer::split_at_cols(line, cols, space), 0, cols.len(), space) == line,
    decreases cols.len(),
{
    let all = buffer::split_at_cols(line, cols, space);
    if cols.len() > 0 {
        let col = text::min(cols.last() as int, line.len() as int);
        let head = line.take(col);
        let tail = line.skip(col);
        lemma_join_pieces(head, cols.drop_last(), space);
        let pieces = buffer::split_at_cols(head, cols.drop_last(), space);
        let n = cols.drop_last().len();
        assert forall|k: int| 0 <= k <= n implies #[trigger] all[0 + k] == pieces[0 + k] by {}
        lemma_joined_same(all, 0, pieces, 0, n, space);
        assert(head + tail =~= line);
        if space && tail.len() > 0 && tail[0] == ' ' {
            assert(head + seq![' '] + tail.skip(1) =~= line);
        }
    }
}

/// A row that was split is joined again. Where the split took out spaces, each
/// cut has to be at a space between two characters, or at an end; and a split
/// without a cut is taken for one only on the last row.
pub proof fn law_split_is_taken_back(
    lines: Seq<Seq<char>>,
    row: int,
    cols: Seq<usize>,
    inserted_space: bool,
)
    requires
        edits::clean(lines),
        0 <= row,
        cols.len() > 0 || row >= lines.len() - 1,
        inserted_space ==> cuts_at_spaces(lines[buffer::row_clamped(lines, row)], cols),
    ensures
        taken_back(lines, EditView::SplitLines { row, cols, inserted_space }),
{
    let at = buffer::row_clamped(lines, row);
    let line = lines[at];
    let pieces = buffer::split_at_cols(line, cols, inserted_space);
    let after = buffer::row_split(lines, row, cols, inserted_space);
    lemma_join_pieces(line, cols, inserted_space);
    assert(after.len() == lines.len() + cols.len());
    assert(buffer::rows_to_join(after, at, cols.len() as int) == cols.len());
    assert forall|k: int| 0 <= k <= cols.len() implies #[trigger] after[at + k] == pieces[0
        + k] by {}
    lemma_joined_same(after, at, pieces, 0, cols.len(), inserted_space);
    assert(after.take(at) =~= lines.take(at));
    assert(after.skip(at + cols.len() + 1) =~= lines.skip(at + 1));
    assert(lines.take(at) + seq![line] + lines.skip(at + 1) =~= lines);
}

} // verus!
