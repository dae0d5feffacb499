//! What the text promises: how ranges of it are cut out and put in, how rows are
//! joined and taken away, and in which rows and columns a change is recorded.
use vstd::prelude::*;

use crate::buffer;
use crate::buffer::{Edit, Viewport};
use crate::buffer_impl;
use crate::content;
use crate::content::ByteCoords;
use crate::edits;
use crate::rope;
use crate::text;
use crate::viewport_math;

verus! {

/// A place that lies in the text is the place closest to itself; from a row past
/// the last the closest is on the last row, and from a column past the end of a row
/// it is the end of that row.
pub proof fn law_closest_place(lines: Seq<Seq<char>>, at: (int, int))
    requires
        lines.len() > 0,
        at.0 >= 0,
        at.1 >= 0,
    ensures
        ({
            let p = buffer::clamp(lines, at);
            &&& buffer::in_text(lines, p)
            &&& buffer::in_text(lines, at) ==> p == at
            &&& at.0 < lines.len() ==> p.0 == at.0
            &&& at.0 >= lines.len() ==> p.0 == lines.len() - 1
            &&& at.1 >= lines[p.0].len() ==> p.1 == lines[p.0].len()
            &&& at.1 <= lines[p.0].len() ==> p.1 == at.1
        }),
{
}

/// What a range deletion takes out is the text of the range: put in again at the
/// start of the range, it gives the text back. A replacement is a deletion and an
/// insertion there.
pub proof fn law_range_edits_fit_together(
    lines: Seq<Seq<char>>,
    start: (int, int),
    end: (int, int),
    t: Seq<char>,
)
    requires
        edits::clean(lines),
        buffer::in_text(lines, start),
        buffer::in_text(lines, end),
        start.0 < end.0 || (start.0 == end.0 && start.1 < end.1),
    ensures
        ({
            let rest = buffer_impl::range_deleted(lines, start, end);
            let taken = buffer_impl::range_text(lines, start, end);
            &&& taken.len() > 0
            &&& buffer::insertion(rest, start, taken).0 == lines
            &&& buffer_impl::range_replaced(lines, start, end, t).0 == buffer::insertion(
                rest,
                start,
                t,
            ).0
            &&& buffer_impl::range_replaced(lines, start, end, taken).0 == lines
        }),
{
    edits::law_delete_is_taken_back(lines, start, end);
    assert(buffer::clamp(lines, start) == start);
    assert(buffer::clamp(lines, end) == end);
    if start.0 < end.0 {
        let first = lines[start.0];
        let all = seq![first.skip(start.1)] + lines.subrange(start.0 + 1, end.0)
            + seq![lines[end.0].take(end.1)];
        assert(all.len() >= 2);
        assert(buffer::join_text(all).len() > 0);
    }
}

/// A range that ends where it starts, or before, is empty: nothing of the text is in
/// it, and deleting it changes nothing where it starts on a row of the text. A range
/// that reaches past the text ends where the text does.
pub proof fn law_ranges_end_with_the_text(
    lines: Seq<Seq<char>>,
    start: (int, int),
    end: (int, int),
)
    requires
        lines.len() > 0,
        start.0 >= 0 && start.1 >= 0 && end.0 >= 0 && end.1 >= 0,
    ensures
        end.0 < start.0 || (end.0 == start.0 && end.1 <= start.1) ==> buffer_impl::range_text(
            lines,
            start,
            end,
        ).len() == 0 && (start.0 < lines.len() ==> buffer_impl::range_deleted(lines, start, end)
            == lines),
        buffer_impl::range_deleted(lines, start, end) == buffer_impl::range_deleted(
            lines,
            buffer::clamp(lines, start),
            buffer::clamp(lines, end),
        ),
{
    law_closest_place(lines, start);
    law_closest_place(lines, end);
    law_closest_place(lines, buffer::clamp(lines, start));
    law_closest_place(lines, buffer::clamp(lines, end));
}

/// Joining a row with the next puts the next row behind it, after a space where one
/// is asked for and neither is empty, and takes no other row along.
pub proof fn law_two_rows_join(lines: Seq<Seq<char>>, row: int, space: bool)
    requires
        0 <= row,
        row + 1 < lines.len(),
    ensures
        ({
            let now = buffer::rows_joined(lines, row, 1, space);
            let a = lines[row];
            let b = lines[row + 1];
            &&& now.len() == lines.len() - 1
            &&& now[row] == (if space && a.len() > 0 && b.len() > 0 {
                a + seq![' '] + b
            } else {
                a + b
            })
            &&& now.take(row) == lines.take(row)
            &&& now.skip(row + 1) == lines.skip(row + 2)
        }),
{
    let now = buffer::rows_joined(lines, row, 1, space);
    assert(buffer::joined(lines, row, 0, space) == lines[row]);
    assert(buffer::rows_to_join(lines, row, 1) == 1);
    assert(now.take(row) =~= lines.take(row));
    assert(now.skip(row + 1) =~= lines.skip(row + 2));
}

/// Joining more rows at once is joining them one by one. A count of zero joins one
/// row, and the last row joins nothing.
pub proof fn law_joins_add_up(lines: Seq<Seq<char>>, row: int, count: int, space: bool)
    requires
        0 <= row < lines.len(),
    ensures
        buffer::rows_joined(lines, row, 0, space) == buffer::rows_joined(lines, row, 1, space),
        buffer::rows_joined(lines, lines.len() - 1, count, space) == lines,
        0 < count && row + count + 1 < lines.len() ==> buffer::rows_joined(
            lines,
            row,
            count + 1,
            space,
        ) == buffer::rows_joined(buffer::rows_joined(lines, row, count, space), row, 1, space),
{
    let last = lines.len() - 1;
    assert(buffer::rows_to_join(lines, last, count) == 0);
    assert(buffer::joined(lines, last, 0, space) == lines[last]);
    assert(buffer::rows_joined(lines, last, count, space) =~= lines);
    if 0 < count && row + count + 1 < lines.len() {
        let mid = buffer::rows_joined(lines, row, count, space);
        assert(buffer::rows_to_join(lines, row, count) == count);
        assert(buffer::rows_to_join(lines, row, count + 1) == count + 1);
        assert(mid.len() == lines.len() - count);
        assert(mid[row] == buffer::joined(lines, row, count as nat, space));
        assert(mid[row + 1] == lines[row + count + 1]);
        assert(buffer::rows_to_join(mid, row, 1) == 1);
        assert(buffer::joined(mid, row, 0, space) == mid[row]);
        assert(buffer::joined(mid, row, 1, space) == buffer::joined(
            lines,
            row,
            (count + 1) as nat,
            space,
        ));
        assert(buffer::rows_joined(lines, row, count + 1, space) =~= buffer::rows_joined(
            mid,
            row,
            1,
            space,
        ));
    }
}

/// Deleting rows closes the gap: what stood above stays, what stood below moves up,
/// and where no row is left there is one empty row. Their text is the rows in
/// order, with a line break behind each.
pub proof fn law_rows_go(lines: Seq<Seq<char>>, lo: int, hi: int)
    requires
        0 <= lo <= hi < lines.len(),
    ensures
        ({
            let now = buffer::rows_removed(lines, lo, hi);
            &&& hi - lo + 1 < lines.len() ==> {
                &&& now.len() == lines.len() - (hi - lo + 1)
                &&& now.take(lo) == lines.take(lo)
                &&& now.skip(lo) == lines.skip(hi + 1)
            }
            &&& hi - lo + 1 == lines.len() ==> now.len() == 1 && now[0].len() == 0
        }),
        buffer::rows_text(lines, lo, hi) == buffer::terminated(lines.subrange(lo, hi + 1)),
{
    let now = buffer::rows_removed(lines, lo, hi);
    if hi - lo + 1 < lines.len() {
        assert(now.take(lo) =~= lines.take(lo));
        assert(now.skip(lo) =~= lines.skip(hi + 1));
    }
    let s = lines.subrange(lo, hi + 1);
    buffer::lemma_join_terminated(s.drop_last(), s.last());
    assert(s.drop_last().push(s.last()) =~= s);
    assert(buffer::terminated(s) =~= buffer::join_text(s).push('\n'));
}

/// Deleting a block takes the same columns out of each of its rows, as far as the
/// row has them, whichever corners are given, and leaves the other rows alone.
pub proof fn law_block_goes(lines: Seq<Seq<char>>, a: (int, int), b: (int, int), i: int, k: int)
    requires
        0 <= i < lines.len(),
        0 <= a.1 && 0 <= b.1,
    ensures
        ({
            let now = buffer::block_removed(lines, a, b);
            let in_rows = a.0 <= i <= b.0 || b.0 <= i <= a.0;
            let left = if a.1 <= b.1 { a.1 } else { b.1 };
            let right = if a.1 <= b.1 { b.1 } else { a.1 };
            &&& now.len() == lines.len()
            &&& !in_rows ==> now[i] == lines[i]
            &&& in_rows && 0 <= k < left && k < lines[i].len() ==> now[i][k] == lines[i][k]
            &&& in_rows && right < k < lines[i].len() ==> now[i][k - (right - left + 1)]
                == lines[i][k]
            &&& in_rows && right < lines[i].len() ==> now[i].len() == lines[i].len() - (right - left
                + 1)
            &&& in_rows && left <= lines[i].len() && lines[i].len() <= right ==> now[i].len() == left
            &&& in_rows && lines[i].len() < left ==> now[i].len() == lines[i].len()
        }),
{
}

/// In rows and columns, a change is recorded from the row and the byte column of
/// its start to those of its end.
pub proof fn law_record_positions(
    lines: Seq<Seq<char>>,
    from: (int, int),
    to: (int, int),
    t: Seq<char>,
)
    requires
        buffer::in_text(lines, from),
        buffer::in_text(lines, to),
        lines.len() <= u32::MAX,
        text::byte_len(lines[from.0]) <= u32::MAX,
        text::byte_len(lines[to.0]) <= u32::MAX,
    ensures
        ({
            let r = content::replacing(lines, from, to, t);
            &&& r.start_position.0 == from.0
            &&& r.start_position.1 == text::byte_len(lines[from.0].take(from.1))
            &&& r.old_end_position.0 == to.0
            &&& r.old_end_position.1 == text::byte_len(lines[to.0].take(to.1))
            &&& t.len() == 0 ==> r.new_end_position == r.start_position && r.new_end_byte
                == r.start_byte
        }),
{
    let a = lines[from.0];
    let b = lines[to.0];
    text::lemma_byte_len_prefix(a, from.1, a.len() as int);
    text::lemma_byte_len_prefix(b, to.1, b.len() as int);
    assert(a.take(a.len() as int) =~= a);
    assert(b.take(b.len() as int) =~= b);
    if t.len() == 0 {
        assert(t =~= Seq::<char>::empty());
        assert(content::after_text(content::coords(lines, from), t) == content::coords(
            lines,
            from,
        ));
    }
}

/// A text without a line break ends on the row on which it starts, as many bytes
/// further; one with line breaks ends one row below the end of what comes before
/// its last line break, at the bytes behind that.
pub proof fn law_end_of_a_text(start: ByteCoords, u: Seq<char>, v: Seq<char>)
    requires
        !v.contains('\n'),
        start.byte + text::byte_len(u) + text::byte_len(v) + 1 <= usize::MAX,
        start.position.0 + u.len() + 1 <= u32::MAX,
        start.position.1 + text::byte_len(v) <= u32::MAX,
    ensures
        content::after_text(start, v).position == (
            start.position.0,
            (start.position.1 + text::byte_len(v)) as u32,
        ),
        content::after_text(start, v).byte == start.byte + text::byte_len(v),
        content::after_text(start, u + seq!['\n'] + v).position == (
            (content::after_text(start, u).position.0 + 1) as u32,
            text::byte_len(v) as u32,
        ),
        content::after_text(start, u + seq!['\n'] + v).byte == start.byte + text::byte_len(u) + 1
            + text::byte_len(v),
{
    let br = seq!['\n'];
    let t = u + br + v;
    lemma_pieces(v);
    lemma_pieces(u);
    lemma_one_piece(v);
    lemma_break(u);
    edits::lemma_split_concat(u + br, v);
    text::lemma_byte_len_concat(u, br);
    text::lemma_byte_len_concat(u + br, v);
    assert(br.drop_last() =~= Seq::<char>::empty());
    assert(text::byte_len(br.drop_last()) == 0);
    assert(text::byte_len(br) == 1);
    let p = buffer::split_text(u + br);
    let q = buffer::split_text(v);
    assert(q == seq![v]);
    assert(buffer::split_text(t).len() == buffer::split_text(u).len() + 1);
    assert(buffer::split_text(t).last() =~= v);
}

proof fn lemma_break(u: Seq<char>)
    ensures
        buffer::split_text(u + seq!['\n']) == buffer::split_text(u).push(Seq::<char>::empty()),
{
    let t = u + seq!['\n'];
    assert(t.drop_last() =~= u);
    assert(t.last() == '\n');
}

proof fn lemma_pieces(t: Seq<char>)
    ensures
        1 <= buffer::split_text(t).len() <= t.len() + 1,
    decreases t.len(),
{
    if t.len() > 0 {
        lemma_pieces(t.drop_last());
    }
}

/// A text without a line break is one piece.
pub(crate) proof fn lemma_one_piece(t: Seq<char>)
    requires
        !t.contains('\n'),
    ensures
        buffer::split_text(t) == seq![t],
    decreases t.len(),
{
    if t.len() > 0 {
        assert(t[t.len() - 1] == t.last());
        assert forall|i: int| 0 <= i < t.drop_last().len() implies #[trigger] t.drop_last()[i]
            != '\n' by {
            assert(t[i] == t.drop_last()[i]);
        }
        lemma_one_piece(t.drop_last());
        assert(t.drop_last().push(t.last()) =~= t);
        assert(seq![t.drop_last()].drop_last().push(t) =~= seq![t]);
    } else {
        assert(t =~= Seq::<char>::empty());
    }
}

/// Row by row, what a block deletion records is what it takes out of a row: it
/// starts and ends on a row of the block, nothing comes in its place, and it covers
/// the bytes of the columns.
pub proof fn law_block_records(
    lines: Seq<Seq<char>>,
    top: int,
    left: int,
    widths: Seq<int>,
    k: int,
)
    requires
        0 <= top,
        0 <= left,
        top + widths.len() <= lines.len() <= u32::MAX,
        buffer::bytes_above(lines, lines.len() as int) <= usize::MAX,
        forall|i: int| 0 <= i < widths.len() ==> 0 <= #[trigger] widths[i],
        0 <= k < content::cut_records(lines, top, left, widths).len(),
    ensures
        ({
            let r = content::cut_records(lines, top, left, widths)[k];
            &&& r.new_end_byte == r.start_byte && r.new_end_position == r.start_position
            &&& r.start_byte < r.old_end_byte
            &&& exists|i: int|
                #![trigger widths[i]]
                0 <= i < widths.len() && r.start_position.0 == top + i && r.old_end_position.0
                    == top + i && r.old_end_byte - r.start_byte == text::byte_len(
                    buffer::columns(lines[top + i], left, left + widths[i]),
                )
        }),
    decreases widths.len(),
{
    let before = widths.drop_last();
    let head = content::cut_records(lines, top, left, before);
    if k < head.len() {
        assert forall|i: int| 0 <= i < before.len() implies 0 <= #[trigger] before[i] by {
            assert(before[i] == widths[i]);
        }
        law_block_records(lines, top, left, before, k);
        let r = head[k];
        let i = choose|i: int|
            #![trigger before[i]]
            0 <= i < before.len() && r.start_position.0 == top + i && r.old_end_position.0 == top
                + i && r.old_end_byte - r.start_byte == text::byte_len(
                buffer::columns(lines[top + i], left, left + before[i]),
            );
        assert(widths[i] == before[i]);
    } else {
        let i = widths.len() - 1;
        let row = top + i;
        let line = lines[row];
        let n = line.len() as int;
        let a = text::min(left, n);
        let b = text::min(left + widths[i], n);
        buffer::lemma_bytes_above_grows(lines, row + 1, lines.len() as int);
        text::lemma_byte_len_prefix(line, a, b);
        text::lemma_byte_len_prefix(line, b, n);
        assert(line.take(n) =~= line);
        assert(line.take(b) =~= line.take(a) + line.subrange(a, b));
        text::lemma_byte_len_concat(line.take(a), line.subrange(a, b));
        assert(widths[i] == widths.last());
    }
}

/// The logged changes of a split put a line break in at each of its columns, those
/// of a block insertion each chunk at the block's column of its row, and those of a
/// chunk deletion take the widths out there; a join logs what it does between the
/// rows: one space or nothing.
pub proof fn law_logged_changes_of_rows(edit: Edit, i: int)
    requires
        edit matches Edit::InsertBlock { at, chunks } ==> at.row + chunks@.len() <= u32::MAX
            && at.col <= u32::MAX,
        edit matches Edit::DeleteBlockChunks { at, widths } ==> at.row + widths@.len() <= u32::MAX
            && at.col <= u32::MAX && forall|k: int|
            0 <= k < widths@.len() ==> at.col + #[trigger] widths@[k] <= u32::MAX,
        edit matches Edit::SplitLines { row, cols, .. } ==> row <= u32::MAX && forall|k: int|
            0 <= k < cols@.len() ==> #[trigger] cols@[k] <= u32::MAX,
        edit matches Edit::JoinLines { row, count, .. } ==> row + count + 1 <= u32::MAX,
    ensures
        ({
            let ops = content::edit_ops(edit);
            &&& edit matches Edit::SplitLines { row, cols, .. } ==> ops.len() == cols@.len() && (0
                <= i < cols@.len() ==> ops[i].0 == ops[i].1 && ops[i].0.line == row
                && ops[i].0.col == cols@[i] && ops[i].2 == seq!['\n'])
            &&& edit matches Edit::InsertBlock { at, chunks } ==> ops.len() == chunks@.len() && (0
                <= i < chunks@.len() ==> ops[i].0 == ops[i].1 && ops[i].0.line == at.row + i
                && ops[i].0.col == at.col && ops[i].2 == chunks@[i]@)
            &&& edit matches Edit::DeleteBlockChunks { at, widths } ==> ops.len() == widths@.len()
                && (0 <= i < widths@.len() ==> ops[i].0.line == at.row + i && ops[i].1.line
                == at.row + i && ops[i].0.col == at.col && ops[i].1.col == at.col + widths@[i]
                && ops[i].2.len() == 0)
            &&& edit matches Edit::JoinLines { row, count, with_space } ==> ops.len() == 1
                && ops[0].0.line == row + 1 && ops[0].0.col == 0 && ops[0].1.line == row + count
                && ops[0].1.col == u32::MAX && ops[0].2 == (if with_space {
                seq![' ']
            } else {
                Seq::<char>::empty()
            })
        }),
{
}

/// A row that a fold hides takes no screen row, and any other as many as it is
/// wrapped to; ranges of rows take together what their parts take.
pub proof fn law_heights_add_up(
    rows: Seq<Seq<char>>,
    folds: Seq<(int, int, bool)>,
    v: Viewport,
    from: int,
    mid: int,
    to: int,
)
    requires
        from <= mid <= to,
    ensures
        viewport_math::height_between(rows, folds, v, from, to) == viewport_math::height_between(
            rows,
            folds,
            v,
            from,
            mid,
        ) + viewport_math::height_between(rows, folds, v, mid, to),
        viewport_math::height_between(rows, folds, v, from, from) == 0,
        0 <= from < rows.len() ==> viewport_math::height_between(rows, folds, v, from, from + 1)
            == (if exists|i: int|
            0 <= i < folds.len() && (#[trigger] folds[i]).2 && folds[i].0 < from && from
                <= folds[i].1 {
            0
        } else {
            rope::segments(rows[from], v.text_width, v.wrap).len() as int
        }),
    decreases to - mid,
{
    crate::fold_laws::law_closed_folds_hide(folds, from);
    assert(viewport_math::height_between(rows, folds, v, from, from) == 0);
    if mid < to {
        law_heights_add_up(rows, folds, v, from, mid, to - 1);
    }
}

/// The first place of a visible row stands on the screen as many screen rows below
/// the top as the rows between take; what lies above the top, and what a fold hides,
/// does not stand on it.
pub proof fn law_screen_rows_are_counted(
    rows: Seq<Seq<char>>,
    folds: Seq<(int, int, bool)>,
    v: Viewport,
    top: int,
    at: (int, int),
    i: int,
)
    requires
        0 <= at.0 < rows.len(),
        ({
            let segs = rope::segments(rows[at.0], v.text_width, v.wrap);
            &&& 0 <= i < segs.len()
            &&& segs[i].0 <= at.1 < segs[i].1
            &&& forall|k: int| 0 <= k < i ==> (#[trigger] segs[k]).1 <= at.1
        }),
    ensures
        ({
            let r = viewport_math::screen_row(rows, folds, v, top, at);
            if at.0 < top || buffer::hidden(folds, at.0) {
                r is None
            } else {
                r == Some(viewport_math::height_between(rows, folds, v, top, at.0) + i)
            }
        }),
{
    lemma_segment(rope::segments(rows[at.0], v.text_width, v.wrap), at.1, i);
}

proof fn lemma_segment(segs: Seq<(usize, usize)>, col: int, i: int)
    requires
        0 <= i < segs.len(),
        segs[i].0 <= col < segs[i].1,
        forall|k: int| 0 <= k < i ==> (#[trigger] segs[k]).1 <= col,
    ensures
        rope::segment_of(segs, col) == i,
{
    buffer::lemma_first_where(segs, |s: (usize, usize)| s.0 <= col < s.1, i);
}

/// How many bytes a character takes in UTF-8, by the first character that takes
/// more.
pub proof fn law_bytes_of_a_character(c: char)
    ensures
        c < '\u{80}' ==> text::byte_len(seq![c]) == 1,
        '\u{80}' <= c && c < '\u{800}' ==> text::byte_len(seq![c]) == 2,
        '\u{800}' <= c && c < '\u{10000}' ==> text::byte_len(seq![c]) == 3,
        '\u{10000}' <= c ==> text::byte_len(seq![c]) == 4,
{
    assert(seq![c].drop_last() =~= Seq::<char>::empty());
    assert(text::byte_len(seq![c].drop_last()) == 0);
}

/// The white space of a line: spaces and tabs are, as are the other characters that
/// Unicode counts in; visible ASCII characters are not.
pub proof fn law_white_space(c: char)
    ensures
        c == ' ' || c == '\t' || c == '\n' || c == '\r' ==> text::white_space(c),
        '!' <= c && c <= '~' ==> !text::white_space(c),
        text::white_space(c) ==> c <= ' ' || c == '\u{85}' || c == '\u{a0}' || c == '\u{1680}' || (
        '\u{2000}' <= c && c <= '\u{205f}') || c == '\u{3000}',
        c == '\u{85}' || c == '\u{a0}' || c == '\u{1680}' || c == '\u{2028}' || c == '\u{2029}' || c
            == '\u{202f}' || c == '\u{205f}' || c == '\u{3000}' || ('\u{2000}' <= c && c
            <= '\u{200a}') ==> text::white_space(c),
{
}

/// A join is recorded from the end of its first row to the end of its last: one byte
/// for the space comes in there, or nothing.
pub proof fn law_join_record(lines: Seq<Seq<char>>, row: usize, count: usize, space: bool)
    requires
        row < lines.len() <= u32::MAX,
        buffer::bytes_above(lines, lines.len() as int) <= usize::MAX,
        forall|i: int|
            0 <= i < lines.len() ==> text::byte_len(#[trigger] lines[i]) < u32::MAX,
    ensures
        ({
            let edit = Edit::JoinLines { row, count, with_space: space };
            let rs = content::content_edits(lines, edit);
            let to = if row + count < lines.len() {
                row + count
            } else {
                lines.len() - 1
            };
            &&& rs.len() == 1
            &&& rs[0].start_byte == buffer_impl::place_offset(
                lines,
                (row as int, lines[row as int].len() as int),
            )
            &&& rs[0].start_position.0 == row
            &&& rs[0].start_position.1 == text::byte_len(lines[row as int])
            &&& rs[0].old_end_byte == buffer_impl::place_offset(
                lines,
                (to, lines[to].len() as int),
            )
            &&& rs[0].old_end_position.0 == to
            &&& rs[0].old_end_position.1 == text::byte_len(lines[to])
            &&& rs[0].new_end_byte - rs[0].start_byte == if space { 1int } else { 0 }
            &&& rs[0].new_end_position.0 == row
            &&& rs[0].new_end_position.1 - rs[0].start_position.1 == if space { 1int } else { 0 }
        }),
{
    let to = if row + count < lines.len() {
        row + count
    } else {
        lines.len() - 1
    };
    let n = lines.len() as int;
    let a = lines[row as int];
    let b = lines[to];
    assert(a.take(a.len() as int) =~= a);
    assert(b.take(b.len() as int) =~= b);
    buffer::lemma_bytes_above_grows(lines, row + 1, n);
    buffer::lemma_bytes_above_grows(lines, to + 1, n);
}

/// A split and a block insertion are recorded piece by piece, each as the insertion
/// of a line break (with the space that it was made of, where there was one) at its
/// column, or of a chunk on its row.
pub proof fn law_pieces_are_recorded(lines: Seq<Seq<char>>, edit: Edit, i: int)
    requires
        lines.len() > 0,
        edit is SplitLines || edit is InsertBlock,
    ensures
        ({
            let rs = content::content_edits(lines, edit);
            &&& edit matches Edit::SplitLines { row, cols, inserted_space } ==> rs.len()
                == cols@.len() && (0 <= i < cols@.len() && row < lines.len() ==> rs[i]
                == content::replacing(
                lines,
                (row as int, cols@[i] as int),
                (row as int, cols@[i] as int),
                if inserted_space {
                    seq!['\n', ' ']
                } else {
                    seq!['\n']
                },
            ))
            &&& edit matches Edit::InsertBlock { at, chunks } ==> rs.len() == chunks@.len() && (0
                <= i < chunks@.len() ==> rs[i] == content::replacing(
                lines,
                (at.row + i, at.col as int),
                (at.row + i, at.col as int),
                chunks@[i]@,
            ))
        }),
{
}

/// Every byte of a text belongs to a place: the character that it is part of, or the
/// end of a line for its line break. Bytes past the end belong to the end of the
/// last line.
pub proof fn law_bytes_belong_to_places(lines: Seq<Seq<char>>, byte: int)
    requires
        lines.len() > 0,
        byte >= 0,
    ensures
        ({
            let p = buffer_impl::offset_place(lines, 0, byte);
            let size = buffer::bytes_above(lines, lines.len() as int) - 1;
            &&& buffer::in_text(lines, p)
            &&& byte <= size ==> buffer_impl::place_offset(lines, p) <= byte
            &&& byte <= size && p.1 < lines[p.0].len() ==> byte < buffer_impl::place_offset(
                lines,
                (p.0, p.1 + 1),
            )
            &&& byte <= size && p.1 == lines[p.0].len() ==> byte == buffer_impl::place_offset(
                lines,
                p,
            )
            &&& byte > size ==> p == (lines.len() - 1, lines.last().len() as int)
        }),
{
    lemma_byte_from_row(lines, 0, byte);
}

proof fn lemma_byte_from_row(lines: Seq<Seq<char>>, row: int, rest: int)
    requires
        0 <= row < lines.len(),
        rest >= 0,
    ensures
        ({
            let p = buffer_impl::offset_place(lines, row, rest);
            let byte = buffer::bytes_above(lines, row) + rest;
            let size = buffer::bytes_above(lines, lines.len() as int) - 1;
            &&& buffer::in_text(lines, p)
            &&& byte <= size ==> buffer_impl::place_offset(lines, p) <= byte
            &&& byte <= size && p.1 < lines[p.0].len() ==> byte < buffer_impl::place_offset(
                lines,
                (p.0, p.1 + 1),
            )
            &&& byte <= size && p.1 == lines[p.0].len() ==> byte == buffer_impl::place_offset(
                lines,
                p,
            )
            &&& byte > size ==> p == (lines.len() - 1, lines.last().len() as int)
        }),
    decreases lines.len() - row,
{
    let line = lines[row];
    assert(buffer::bytes_above(lines, row + 1) == buffer::bytes_above(lines, row) + text::byte_len(
        line,
    ) + 1);
    assert(line.take(line.len() as int) =~= line);
    buffer::lemma_bytes_above_grows(lines, row + 1, lines.len() as int);
    if rest <= text::byte_len(line) {
        text::lemma_col_at_byte_bounds(line, rest);
    } else if row + 1 < lines.len() {
        lemma_byte_from_row(lines, row + 1, rest - text::byte_len(line) - 1);
    } else {
        assert(buffer_impl::offset_place(lines, row + 1, rest - text::byte_len(line) - 1) == (
            lines.len() - 1,
            lines.last().len() as int,
        ));
    }
}

/// A place past the end of a line has the offset of that end, and a place past the
/// last row lies one byte behind the text, where one more row would start.
pub proof fn law_offsets_past_the_end(lines: Seq<Seq<char>>, at: (int, int))
    requires
        lines.len() > 0,
        at.0 >= 0,
        at.1 >= 0,
    ensures
        at.0 < lines.len() ==> buffer_impl::place_offset(lines, at) == buffer_impl::place_offset(
            lines,
            buffer::clamp(lines, at),
        ),
        at.0 >= lines.len() ==> buffer_impl::place_offset(lines, at) == buffer_impl::place_offset(
            lines,
            (lines.len() - 1, lines.last().len() as int),
        ) + 1,
{
    let last = lines.last();
    assert(last.take(last.len() as int) =~= last);
}

/// A range that ends past the last row has the rest of the text, and a line break
/// behind it.
pub proof fn law_range_to_the_end(lines: Seq<Seq<char>>, start: (int, int), end: (int, int))
    requires
        buffer::in_text(lines, start),
        end.0 >= lines.len(),
    ensures
        ({
            let last = lines.last();
            let rest = lines[start.0].skip(start.1);
            let t = buffer_impl::range_text(lines, start, end);
            if start.0 == lines.len() - 1 {
                t == rest.push('\n')
            } else {
                t == buffer::text_between(
                    lines,
                    start,
                    (lines.len() - 1, last.len() as int),
                ).push('\n')
            }
        }),
{
    let none = Seq::<char>::empty();
    let n = lines.len() as int;
    let more = lines.push(none);
    let first = lines[start.0];
    let head = seq![first.skip(start.1)] + lines.subrange(start.0 + 1, n);
    let all = seq![more[start.0].skip(start.1)] + more.subrange(start.0 + 1, n) + seq![
        more[n].take(0),
    ];
    assert(more.subrange(start.0 + 1, n) =~= lines.subrange(start.0 + 1, n));
    assert(more[n].take(0) =~= none);
    assert(all =~= head.push(none));
    assert(head.push(none).drop_last() =~= head);
    assert(buffer::join_text(head.push(none)) =~= buffer::join_text(head).push('\n'));
    if start.0 < n - 1 {
        let last = lines.last();
        let body = seq![first.skip(start.1)] + lines.subrange(start.0 + 1, n - 1) + seq![
            last.take(last.len() as int),
        ];
        assert(last.take(last.len() as int) =~= last);
        assert(body =~= head);
    } else {
        assert(head =~= seq![first.skip(start.1)]);
    }
}

/// Texts that are inserted one behind the other end where both together would.
pub proof fn law_inserted_ends_add_up(at: (int, int), u: Seq<char>, v: Seq<char>)
    ensures
        buffer::inserted_end(buffer::inserted_end(at, u), v) == buffer::inserted_end(at, u + v),
        buffer::inserted_end(at, seq!['\n']) == (at.0 + 1, 0int),
        !v.contains('\n') ==> buffer::inserted_end(at, v) == (at.0, at.1 + v.len()),
{
    let p = buffer::split_text(u);
    let q = buffer::split_text(v);
    lemma_pieces(u);
    lemma_pieces(v);
    edits::lemma_split_concat(u, v);
    lemma_break(Seq::<char>::empty());
    assert(Seq::<char>::empty() + seq!['\n'] =~= seq!['\n']);
    if !v.contains('\n') {
        lemma_one_piece(v);
    }
    lemma_single(u);
    lemma_single(v);
    let both = buffer::split_text(u + v);
    assert(both.len() == p.len() + q.len() - 1);
    if q.len() > 1 {
        assert(both.last() == q.last());
    } else {
        assert(both.last() == p.last() + q[0]);
    }
}

proof fn lemma_single(t: Seq<char>)
    ensures
        buffer::split_text(t).len() == 1 ==> buffer::split_text(t)[0] == t,
    decreases t.len(),
{
    if t.len() > 0 {
        lemma_pieces(t.drop_last());
        lemma_single(t.drop_last());
        assert(t.drop_last().push(t.last()) =~= t);
    }
}

/// Where an edit sends the cursor: behind what it put in, to the start of what it
/// took out, to the start of the row that rows were joined to or that was split, and
/// to the upper left corner of a block.
pub proof fn law_edits_send_the_cursor(lines: Seq<Seq<char>>, e: edits::EditView)
    requires
        lines.len() > 0,
    ensures
        ({
            let to = edits::applied(lines, e).1;
            match e {
                edits::EditView::InsertStr { at, text: t } => to == buffer::inserted_end(
                    buffer::clamp(lines, at),
                    t,
                ),
                edits::EditView::DeleteRange { start, end, kind } => match kind {
                    buffer::MotionKind::Char => (to == start || to == end) && (to.0 < start.0 || (
                    to.0 == start.0 && to.1 <= start.1)) && (to.0 < end.0 || (to.0 == end.0 && to.1
                        <= end.1)),
                    buffer::MotionKind::Line => to.0 <= start.0 && to.0 <= end.0 && (to.0 == start.0
                        || to.0 == end.0) && to.1 == 0,
                    buffer::MotionKind::Block => to.0 <= start.0 && to.0 <= end.0 && to.1 <= start.1
                        && to.1 <= end.1 && (to.0 == start.0 || to.0 == end.0) && (to.1 == start.1
                        || to.1 == end.1),
                },
                edits::EditView::JoinLines { row, .. } => to.1 == 0 && (row < lines.len() ==> to.0
                    == row) && (row >= lines.len() ==> to.0 == lines.len() - 1),
                edits::EditView::SplitLines { row, .. } => to.1 == 0 && (row < lines.len() ==> to.0
                    == row) && (row >= lines.len() ==> to.0 == lines.len() - 1),
                edits::EditView::InsertBlock { at, .. } => to == at,
                edits::EditView::DeleteBlockChunks { at, .. } => to == at,
                edits::EditView::Replace { .. } => true,
            }
        }),
{
}

} // verus!
