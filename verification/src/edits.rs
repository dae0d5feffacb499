//! Applying an edit to the buffer, and taking it back.
use hjkl_buffer::Buffer as RopeBuffer;
use vstd::prelude::*;

use crate::buffer;
use crate::buffer::{Edit, MotionKind, Position};
use crate::rope;
use crate::text;

verus! {

/// An edit with its texts as sequences of characters.
pub enum EditView {
    InsertStr { at: (int, int), text: Seq<char> },
    DeleteRange { start: (int, int), end: (int, int), kind: MotionKind },
    JoinLines { row: int, count: int, with_space: bool },
    SplitLines { row: int, cols: Seq<usize>, inserted_space: bool },
    Replace { start: (int, int), end: (int, int), with: Seq<char> },
    InsertBlock { at: (int, int), chunks: Seq<Seq<char>> },
    DeleteBlockChunks { at: (int, int), widths: Seq<usize> },
}

/// An edit as the model sees it; inserting a character is inserting the text
/// of that character.
pub open spec fn edit_view(edit: Edit) -> EditView {
    match edit {
        Edit::InsertChar { at, ch } => EditView::InsertStr { at: at.spot(), text: seq![ch] },
        Edit::InsertStr { at, text: t } => EditView::InsertStr { at: at.spot(), text: t@ },
        Edit::DeleteRange { start, end, kind } => EditView::DeleteRange {
            start: start.spot(),
            end: end.spot(),
            kind,
        },
        Edit::JoinLines { row, count, with_space } => EditView::JoinLines {
            row: row as int,
            count: count as int,
            with_space,
        },
        Edit::SplitLines { row, cols, inserted_space } => EditView::SplitLines {
            row: row as int,
            cols: cols@,
            inserted_space,
        },
        Edit::Replace { start, end, with } => EditView::Replace {
            start: start.spot(),
            end: end.spot(),
            with: with@,
        },
        Edit::InsertBlock { at, chunks } => EditView::InsertBlock {
            at: at.spot(),
            chunks: buffer::texts(chunks@),
        },
        Edit::DeleteBlockChunks { at, widths } => EditView::DeleteBlockChunks {
            at: at.spot(),
            widths: widths@,
        },
    }
}

/// The edit has rows to work on. An insertion moves its place into the text,
/// and so do a join and a split; the others name rows of the text.
pub open spec fn applicable(lines: Seq<Seq<char>>, e: EditView) -> bool {
    let n = lines.len() as int;
    match e {
        EditView::InsertStr { .. } => true,
        EditView::DeleteRange { start, end, kind } => match kind {
            MotionKind::Char => start.0 < n && end.0 < n,
            MotionKind::Line => text::min(start.0, end.0) <= n,
            MotionKind::Block => start.0 < n && end.0 < n && start.1 < usize::MAX && end.1
                < usize::MAX,
        },
        EditView::JoinLines { .. } => true,
        EditView::SplitLines { .. } => true,
        EditView::Replace { start, end, .. } => start.0 < n && end.0 < n,
        EditView::InsertBlock { at, chunks } => buffer::block_fits(lines, at, chunks),
        EditView::DeleteBlockChunks { at, widths } => {
            &&& widths.len() > 0 ==> at.0 + widths.len() <= n
            &&& forall|i: int| 0 <= i < widths.len() ==> at.1 + (#[trigger] widths[i]) <= usize::MAX
        },
    }
}

/// The edit names rows of the text and nothing else; a block that is inserted
/// has one row of the text for each chunk, and no chunk holds a line break.
pub open spec fn within(lines: Seq<Seq<char>>, e: EditView) -> bool {
    match e {
        EditView::InsertBlock { at, chunks } => {
            &&& chunks.len() > 0 ==> at.0 + chunks.len() <= lines.len()
            &&& forall|i: int| 0 <= i < chunks.len() ==> unbroken(#[trigger] chunks[i])
            &&& forall|i: int|
                at.0 <= i < at.0 + chunks.len() ==> #[trigger] buffer::chunk_fits(lines, i, at.1)
        },
        _ => applicable(lines, e),
    }
}

/// The lines after an edit, and the place where it leaves the cursor.
pub open spec fn applied(lines: Seq<Seq<char>>, e: EditView) -> (Seq<Seq<char>>, (int, int)) {
    match e {
        EditView::InsertStr { at, text: t } => {
            let done = buffer::insertion(lines, at, t);
            (done.0, done.2)
        },
        EditView::DeleteRange { start, end, kind } => match kind {
            MotionKind::Char => (
                buffer::cut(lines, buffer::earlier(start, end), buffer::later(start, end)),
                buffer::earlier(start, end),
            ),
            MotionKind::Line => (
                buffer::rows_removed(
                    lines,
                    text::min(start.0, end.0),
                    text::max(start.0, end.0),
                ),
                (text::min(start.0, end.0), 0int),
            ),
            MotionKind::Block => (
                buffer::block_removed(lines, start, end),
                buffer::block_corner(start, end),
            ),
        },
        EditView::JoinLines { row, count, with_space } => (
            buffer::rows_joined(lines, row, count, with_space),
            (buffer::row_clamped(lines, row), 0int),
        ),
        EditView::SplitLines { row, cols, inserted_space } => (
            buffer::row_split(lines, row, cols, inserted_space),
            (buffer::row_clamped(lines, row), 0int),
        ),
        EditView::Replace { start, end, with } => {
            let done = buffer::replacement(lines, start, end, with);
            (done.0, done.2)
        },
        EditView::InsertBlock { at, chunks } => (buffer::block_inserted(lines, at, chunks), at),
        EditView::DeleteBlockChunks { at, widths } => (
            buffer::chunks_removed(lines, at, widths),
            at,
        ),
    }
}

/// The edit that takes an edit back.
pub open spec fn inverse(lines: Seq<Seq<char>>, e: EditView) -> EditView {
    match e {
        EditView::InsertStr { at, text: t } => EditView::DeleteRange {
            start: buffer::insertion(lines, at, t).1,
            end: buffer::insertion(lines, at, t).2,
            kind: MotionKind::Char,
        },
        EditView::DeleteRange { start, end, kind } => match kind {
            MotionKind::Char => EditView::InsertStr {
                at: buffer::earlier(start, end),
                text: buffer::text_between(
                    lines,
                    buffer::earlier(start, end),
                    buffer::later(start, end),
                ),
            },
            MotionKind::Line => EditView::InsertStr {
                at: (text::min(start.0, end.0), 0int),
                text: buffer::rows_text(
                    lines,
                    text::min(start.0, end.0),
                    text::max(start.0, end.0),
                ),
            },
            MotionKind::Block => EditView::InsertBlock {
                at: buffer::block_corner(start, end),
                chunks: buffer::block_text(lines, start, end),
            },
        },
        EditView::JoinLines { row, count, with_space } => EditView::SplitLines {
            row: buffer::row_clamped(lines, row),
            cols: buffer::join_cols(lines, row, count, with_space),
            inserted_space: with_space,
        },
        EditView::SplitLines { row, cols, inserted_space } => EditView::JoinLines {
            row: buffer::row_clamped(lines, row),
            count: cols.len() as int,
            with_space: inserted_space,
        },
        EditView::Replace { start, end, with } => EditView::Replace {
            start: buffer::replacement(lines, start, end, with).1,
            end: buffer::replacement(lines, start, end, with).2,
            with: buffer::text_between(
                lines,
                buffer::earlier(start, end),
                buffer::later(start, end),
            ),
        },
        EditView::InsertBlock { at, chunks } => EditView::DeleteBlockChunks {
            at,
            widths: buffer::widths(chunks),
        },
        EditView::DeleteBlockChunks { at, widths } => EditView::InsertBlock {
            at,
            chunks: buffer::chunks_text(lines, at, widths),
        },
    }
}

/// Whether a text holds no line break.
fn is_unbroken(t: &str) -> (b: bool)
    ensures
        b == unbroken(t@),
{
    let v = text::chars_of(t);
    let mut i: usize = 0;
    while i < v.len()
        invariant
            v@ == t@,
            i <= v.len(),
            forall|k: int| 0 <= k < i ==> #[trigger] t@[k] != '\n',
        decreases v.len() - i,
    {
        if v[i] == '\n' {
            assert(t@[i as int] == '\n');
            return false;
        }
        i = i + 1;
    }
    true
}

/// Whether a row is there and can be filled up to a column.
fn row_fits(b: &RopeBuffer, row: usize, col: usize) -> (ok: bool)
    ensures
        ok == buffer::chunk_fits(rope::buffer_lines(*b), row as int, col as int),
{
    match rope::rope_line(b, row) {
        Some(s) => {
            let len: usize = text::char_count(s);
            let bytes: usize = text::byte_length(s);
            len >= col || bytes as u128 + (col - len) as u128 <= isize::MAX as u128
        },
        None => false,
    }
}

fn block_within(b: &RopeBuffer, at: Position, chunks: &Vec<String>) -> (ok: bool)
    ensures
        ok == within(
            rope::buffer_lines(*b),
            EditView::InsertBlock { at: at.spot(), chunks: buffer::texts(chunks@) },
        ),
{
    let n: usize = rope::rope_row_count(b);
    let ghost lines = rope::buffer_lines(*b);
    let ghost t = buffer::texts(chunks@);
    if chunks.len() > 0 && (at.row >= n || chunks.len() > n - at.row) {
        return false;
    }
    let mut i: usize = 0;
    while i < chunks.len()
        invariant
            lines == rope::buffer_lines(*b),
            t == buffer::texts(chunks@),
            i <= chunks.len(),
            chunks@.len() > 0 ==> at.row + chunks@.len() <= n,
            forall|k: int| 0 <= k < i ==> unbroken(#[trigger] t[k]),
            forall|k: int|
                at.row <= k < at.row + i ==> #[trigger] buffer::chunk_fits(
                    lines,
                    k,
                    at.col as int,
                ),
        decreases chunks.len() - i,
    {
        if !is_unbroken(chunks[i].as_str()) {
            assert(!unbroken(t[i as int]));
            return false;
        }
        if !row_fits(b, at.row + i, at.col) {
            assert(!buffer::chunk_fits(rope::buffer_lines(*b), at.spot().0 + i, at.spot().1));
            assert(t.len() == chunks@.len());
            return false;
        }
        i = i + 1;
    }
    true
}

fn chunks_within(b: &RopeBuffer, at: Position, widths: &Vec<usize>) -> (ok: bool)
    ensures
        ok == applicable(
            rope::buffer_lines(*b),
            EditView::DeleteBlockChunks { at: at.spot(), widths: widths@ },
        ),
{
    let n: usize = rope::rope_row_count(b);
    if widths.len() > 0 && (at.row >= n || widths.len() > n - at.row) {
        return false;
    }
    let mut i: usize = 0;
    while i < widths.len()
        invariant
            i <= widths.len(),
            n == rope::buffer_lines(*b).len(),
            widths@.len() > 0 ==> at.row + widths@.len() <= n,
            forall|k: int| 0 <= k < i ==> at.spot().1 + (#[trigger] widths@[k]) <= usize::MAX,
        decreases widths.len() - i,
    {
        if widths[i] > usize::MAX - at.col {
            assert(at.spot().1 + widths@[i as int] > usize::MAX);
            return false;
        }
        i = i + 1;
    }
    true
}

/// Whether an edit names rows of the text and nothing else; such an edit can be
/// applied.
pub fn can_apply(b: &RopeBuffer, edit: &Edit) -> (ok: bool)
    ensures
        ok == within(rope::buffer_lines(*b), edit_view(*edit)),
        ok ==> applicable(rope::buffer_lines(*b), edit_view(*edit)),
{
    let n: usize = rope::rope_row_count(b);
    proof {
        let lines = rope::buffer_lines(*b);
        assert forall|i: int| 0 <= i < lines.len() implies unbroken(#[trigger] lines[i]) by {
            assert(!lines[i].contains('\n'));
        }
        if within(lines, edit_view(*edit)) {
            lemma_within_applies(lines, *edit);
        }
    }
    match edit {
        Edit::InsertChar { .. } | Edit::InsertStr { .. } => true,
        Edit::DeleteRange { start, end, kind } => match kind {
            MotionKind::Char => start.row < n && end.row < n,
            MotionKind::Line => start.row <= n || end.row <= n,
            MotionKind::Block => start.row < n && end.row < n && start.col < usize::MAX && end.col
                < usize::MAX,
        },
        Edit::JoinLines { .. } | Edit::SplitLines { .. } => true,
        Edit::Replace { start, end, .. } => start.row < n && end.row < n,
        Edit::InsertBlock { at, chunks } => block_within(b, *at, chunks),
        Edit::DeleteBlockChunks { at, widths } => chunks_within(b, *at, widths),
    }
}

/// Chunks without line breaks leave the rows below them where they are.
proof fn lemma_rows_below_stay(
    lines: Seq<Seq<char>>,
    at: (int, int),
    chunks: Seq<Seq<char>>,
    k: int,
)
    requires
        forall|i: int| 0 <= i < lines.len() ==> unbroken(#[trigger] lines[i]),
        forall|i: int| 0 <= i < chunks.len() ==> unbroken(#[trigger] chunks[i]),
        0 <= at.0,
        0 <= at.1,
        0 <= k <= chunks.len(),
        chunks.len() > 0 ==> at.0 + chunks.len() <= lines.len(),
    ensures
        ({
            let after = buffer::block_inserted(lines, at, chunks.take(k));
            &&& after.len() == lines.len()
            &&& forall|i: int| at.0 + k <= i < lines.len() ==> #[trigger] after[i] == lines[i]
        }),
    decreases k,
{
    if k > 0 {
        lemma_rows_below_stay(lines, at, chunks, k - 1);
        assert(chunks.take(k).drop_last() =~= chunks.take(k - 1));
        let before = buffer::block_inserted(lines, at, chunks.take(k - 1));
        let row = at.0 + k - 1;
        assert(before[row] == lines[row]);
        let line = buffer::padded(lines[row], at.1);
        assert(unbroken(lines[row]) && unbroken(chunks[k - 1]));
        assert(unbroken(line)) by {
            assert forall|i: int| 0 <= i < line.len() implies #[trigger] line[i] != '\n' by {
                if i < lines[row].len() {
                    assert(line[i] == lines[row][i]);
                }
            }
        }
        let wide = before.update(row, line);
        let col = text::min(at.1, line.len() as int);
        lemma_unbroken_parts(line, col);
        let grown = line.take(col) + chunks[k - 1] + line.skip(col);
        assert(unbroken(grown)) by {
            assert forall|i: int| 0 <= i < grown.len() implies #[trigger] grown[i] != '\n' by {
                if i < col {
                    assert(grown[i] == line.take(col)[i]);
                } else if i < col + chunks[k - 1].len() {
                    assert(grown[i] == chunks[k - 1][i - col]);
                } else {
                    assert(grown[i] == line.skip(col)[i - col - chunks[k - 1].len()]);
                }
            }
        }
        lemma_split_unbroken(grown);
        let after = buffer::block_inserted(lines, at, chunks.take(k));
        assert(after =~= wide.take(row) + seq![grown] + wide.skip(row + 1));
    }
}

/// An edit that names rows of the text and nothing else can be applied.
proof fn lemma_within_applies(lines: Seq<Seq<char>>, edit: Edit)
    requires
        forall|i: int| 0 <= i < lines.len() ==> unbroken(#[trigger] lines[i]),
        within(lines, edit_view(edit)),
    ensures
        applicable(lines, edit_view(edit)),
{
    match edit_view(edit) {
        EditView::InsertBlock { at, chunks } => {
            assert forall|i: int| 0 <= i < chunks.len() implies buffer::chunk_fits(
                #[trigger] buffer::block_inserted(lines, at, chunks.take(i)),
                at.0 + i,
                at.1,
            ) by {
                lemma_rows_below_stay(lines, at, chunks, i);
                assert(buffer::chunk_fits(lines, at.0 + i, at.1));
            }
        },
        _ => {},
    }
}

fn insert_inverse(start: Position, end: Position) -> (e: Edit)
    ensures
        e == (Edit::DeleteRange { start, end, kind: MotionKind::Char }),
{
    Edit::DeleteRange { start, end, kind: MotionKind::Char }
}

/// Applies an edit to the buffer and returns the one that takes it back.
pub fn apply_buffer_edit(b: &mut RopeBuffer, edit: Edit) -> (back: Edit)
    requires
        applicable(rope::buffer_lines(*old(b)), edit_view(edit)),
    ensures
        rope::edited(
            *old(b),
            *final(b),
            applied(rope::buffer_lines(*old(b)), edit_view(edit)).0,
            applied(rope::buffer_lines(*old(b)), edit_view(edit)).1,
        ),
        edit_view(back) == inverse(rope::buffer_lines(*old(b)), edit_view(edit)),
{
    let at0 = Position::new(0, 0);
    match edit {
        Edit::InsertChar { at, ch } => {
            let mut t = String::new();
            t.push(ch);
            assert(t@ =~= seq![ch]);
            match rope::rope_insert(b, at, t) {
                Some((start, end)) => insert_inverse(start, end),
                None => insert_inverse(at0, at0),
            }
        },
        Edit::InsertStr { at, text: t } => match rope::rope_insert(b, at, t) {
            Some((start, end)) => insert_inverse(start, end),
            None => insert_inverse(at0, at0),
        },
        Edit::DeleteRange { start, end, kind } => match kind {
            MotionKind::Char => match rope::rope_delete_chars(b, start, end) {
                Some((at, t)) => Edit::InsertStr { at, text: t },
                None => insert_inverse(at0, at0),
            },
            MotionKind::Line => match rope::rope_delete_rows(b, start, end) {
                Some((at, t)) => Edit::InsertStr { at, text: t },
                None => insert_inverse(at0, at0),
            },
            MotionKind::Block => match rope::rope_delete_block(b, start, end) {
                Some((at, chunks)) => Edit::InsertBlock { at, chunks },
                None => insert_inverse(at0, at0),
            },
        },
        Edit::JoinLines { row, count, with_space } => {
            let rows: usize = rope::rope_row_count(b);
            let count: usize = if count < rows {
                count
            } else {
                rows
            };
            match rope::rope_join(b, row, count, with_space) {
                Some((row, cols, inserted_space)) => Edit::SplitLines { row, cols, inserted_space },
                None => insert_inverse(at0, at0),
            }
        },
        Edit::SplitLines { row, cols, inserted_space } => match rope::rope_split(
            b,
            row,
            cols,
            inserted_space,
        ) {
            Some((row, count, with_space)) => Edit::JoinLines { row, count, with_space },
            None => insert_inverse(at0, at0),
        },
        Edit::Replace { start, end, with } => match rope::rope_replace(b, start, end, with) {
            Some((start, end, with)) => Edit::Replace { start, end, with },
            None => insert_inverse(at0, at0),
        },
        Edit::InsertBlock { at, chunks } => match rope::rope_insert_block(b, at, chunks) {
            Some((at, widths)) => Edit::DeleteBlockChunks { at, widths },
            None => insert_inverse(at0, at0),
        },
        Edit::DeleteBlockChunks { at, widths } => match rope::rope_delete_chunks(b, at, widths) {
            Some((at, chunks)) => Edit::InsertBlock { at, chunks },
            None => insert_inverse(at0, at0),
        },
    }
}

// ── Taking an edit back ─────────────────────────────────────────────

/// No line holds a line break, and there is at least one line.
pub open spec fn clean(lines: Seq<Seq<char>>) -> bool {
    &&& lines.len() > 0
    &&& forall|i: int| 0 <= i < lines.len() ==> unbroken(#[trigger] lines[i])
}

/// A text without a line break.
pub open spec fn unbroken(t: Seq<char>) -> bool {
    forall|i: int| 0 <= i < t.len() ==> #[trigger] t[i] != '\n'
}

/// A text always has at least one piece, and no piece holds a line break.
pub proof fn lemma_split_clean(t: Seq<char>)
    ensures
        clean(buffer::split_text(t)),
    decreases t.len(),
{
    if t.len() > 0 {
        lemma_split_clean(t.drop_last());
        let head = buffer::split_text(t.drop_last());
        if t.last() != '\n' {
            assert forall|i: int|
                0 <= i < head.len() implies unbroken(#[trigger] buffer::split_text(t)[i]) by {
                if i < head.len() - 1 {
                    assert(buffer::split_text(t)[i] == head[i]);
                } else {
                    assert(unbroken(head.last()));
                }
            }
        } else {
            assert forall|i: int|
                0 <= i < head.len() + 1 implies unbroken(#[trigger] buffer::split_text(t)[i]) by {
                if i < head.len() {
                    assert(buffer::split_text(t)[i] == head[i]);
                }
            }
        }
    }
}

/// A text without a line break is its only piece.
pub proof fn lemma_split_unbroken(t: Seq<char>)
    requires
        unbroken(t),
    ensures
        buffer::split_text(t) == seq![t],
    decreases t.len(),
{
    if t.len() > 0 {
        assert(unbroken(t.drop_last())) by {
            assert forall|i: int| 0 <= i < t.len() - 1 implies #[trigger] t.drop_last()[i]
                != '\n' by {
                assert(t[i] != '\n');
            }
        }
        lemma_split_unbroken(t.drop_last());
        assert(t[t.len() - 1] != '\n');
        assert(t.drop_last().push(t.last()) =~= t);
        assert(buffer::split_text(t) =~= seq![t]);
    } else {
        assert(t =~= Seq::<char>::empty());
    }
}

/// The pieces of two texts one after the other: the last piece of the first
/// and the first piece of the second grow together.
pub proof fn lemma_split_concat(a: Seq<char>, b: Seq<char>)
    ensures
        buffer::split_text(a + b) == buffer::split_text(a).drop_last() + seq![
            buffer::split_text(a).last() + buffer::split_text(b)[0],
        ] + buffer::split_text(b).skip(1),
    decreases b.len(),
{
    lemma_split_clean(a);
    let p = buffer::split_text(a);
    if b.len() == 0 {
        assert(a + b =~= a);
        assert(b =~= Seq::<char>::empty());
        assert(p.last() + Seq::<char>::empty() =~= p.last());
        assert(buffer::split_text(b).skip(1) =~= Seq::<Seq<char>>::empty());
        assert(p =~= p.drop_last() + seq![p.last()] + Seq::<Seq<char>>::empty());
    } else {
        let c = b.drop_last();
        lemma_split_concat(a, c);
        lemma_split_clean(c);
        assert((a + b).drop_last() =~= a + c);
        let q = buffer::split_text(c);
        let head = p.drop_last() + seq![p.last() + q[0]] + q.skip(1);
        let r = buffer::split_text(b);
        if b.last() == '\n' {
            assert(r =~= q.push(Seq::<char>::empty()));
            assert(r[0] == q[0]);
            assert(buffer::split_text(a + b) =~= p.drop_last() + seq![p.last() + r[0]] + r.skip(1));
        } else {
            let x = b.last();
            if q.len() == 1 {
                assert(head.last() == p.last() + q[0]);
                assert(r =~= seq![q[0].push(x)]);
                assert((p.last() + q[0]).push(x) =~= p.last() + r[0]);
                assert(buffer::split_text(a + b) =~= p.drop_last() + seq![p.last() + r[0]]
                    + r.skip(1));
            } else {
                assert(head.last() == q.last());
                assert(r[0] == q[0]);
                assert(buffer::split_text(a + b) =~= p.drop_last() + seq![p.last() + r[0]]
                    + r.skip(1));
            }
        }
    }
}

/// Lines joined and split again are the same lines.
pub proof fn lemma_split_join(lines: Seq<Seq<char>>)
    requires
        clean(lines),
    ensures
        buffer::split_text(buffer::join_text(lines)) == lines,
    decreases lines.len(),
{
    if lines.len() == 1 {
        assert(unbroken(lines[0]));
        lemma_split_unbroken(lines[0]);
        assert(lines =~= seq![lines[0]]);
    } else {
        let head = lines.drop_last();
        let last = lines.last();
        assert(clean(head)) by {
            assert forall|i: int| 0 <= i < head.len() implies unbroken(#[trigger] head[i]) by {
                assert(unbroken(lines[i]));
            }
        }
        lemma_split_join(head);
        assert(unbroken(lines[lines.len() - 1]));
        let t = buffer::join_text(head) + seq!['\n'];
        assert(t.drop_last() =~= buffer::join_text(head));
        assert(buffer::split_text(t) =~= head.push(Seq::<char>::empty()));
        lemma_split_concat(t, last);
        lemma_split_unbroken(last);
        let p = buffer::split_text(t);
        assert(p.drop_last() =~= head);
        assert(Seq::<char>::empty() + last =~= last);
        assert(buffer::split_text(last).skip(1) =~= Seq::<Seq<char>>::empty());
        assert(head + seq![last] + Seq::<Seq<char>>::empty() =~= lines);
    }
}

/// A text split and joined again is the same text.
pub proof fn lemma_join_split(t: Seq<char>)
    ensures
        buffer::join_text(buffer::split_text(t)) == t,
    decreases t.len(),
{
    if t.len() == 0 {
        assert(t =~= Seq::<char>::empty());
    } else {
        let c = t.drop_last();
        lemma_join_split(c);
        lemma_split_clean(c);
        let p = buffer::split_text(c);
        if t.last() == '\n' {
            assert(p.push(Seq::<char>::empty()).drop_last() =~= p);
            assert(c + seq!['\n'] + Seq::<char>::empty() =~= t);
        } else if p.len() == 1 {
            assert(p.drop_last().push(p.last().push(t.last())) =~= seq![p[0].push(t.last())]);
            assert(c.push(t.last()) =~= t);
        } else {
            let q = p.drop_last().push(p.last().push(t.last()));
            assert(q.drop_last() =~= p.drop_last());
            assert(buffer::join_text(q) =~= buffer::join_text(p).push(t.last()));
            assert(c.push(t.last()) =~= t);
        }
    }
}

/// A prefix of an unbroken text is unbroken, and so is the rest.
pub proof fn lemma_unbroken_parts(t: Seq<char>, i: int)
    requires
        unbroken(t),
        0 <= i <= t.len(),
    ensures
        unbroken(t.take(i)),
        unbroken(t.skip(i)),
{
    assert forall|k: int| 0 <= k < i implies #[trigger] t.take(i)[k] != '\n' by {
        assert(t[k] != '\n');
    }
    assert forall|k: int| 0 <= k < t.len() - i implies #[trigger] t.skip(i)[k] != '\n' by {
        assert(t[k + i] != '\n');
    }
}

/// The pieces of a text between two unbroken ones.
pub proof fn lemma_split_between(a: Seq<char>, t: Seq<char>, b: Seq<char>)
    requires
        unbroken(a),
        unbroken(b),
    ensures
        ({
            let p = buffer::split_text(t);
            buffer::split_text(a + t + b) == if p.len() == 1 {
                seq![a + t + b]
            } else {
                seq![a + p[0]] + p.subrange(1, p.len() - 1) + seq![p.last() + b]
            }
        }),
{
    let p = buffer::split_text(t);
    lemma_split_clean(t);
    lemma_split_unbroken(a);
    lemma_split_unbroken(b);
    lemma_split_concat(a, t);
    let q = buffer::split_text(a + t);
    assert(seq![a].drop_last() =~= Seq::<Seq<char>>::empty());
    assert(q =~= seq![a + p[0]] + p.skip(1));
    lemma_split_concat(a + t, b);
    assert(seq![b].skip(1) =~= Seq::<Seq<char>>::empty());
    if p.len() == 1 {
        lemma_join_split(t);
        assert(p[0] == t);
        assert(q.last() == a + t);
        assert(buffer::split_text(a + t + b) =~= seq![a + t + b]);
    } else {
        assert(q.last() == p.last());
        assert(buffer::split_text(a + t + b) =~= seq![a + p[0]] + p.subrange(1, p.len() - 1)
            + seq![p.last() + b]);
    }
}

/// What is inserted and then deleted leaves the text as it was.
pub proof fn law_insert_is_taken_back(lines: Seq<Seq<char>>, at: (int, int), t: Seq<char>)
    requires
        clean(lines),
        0 <= at.0,
        0 <= at.1,
    ensures
        ({
            let e = EditView::InsertStr { at, text: t };
            let after = applied(lines, e).0;
            &&& applicable(after, inverse(lines, e))
            &&& applied(after, inverse(lines, e)).0 == lines
        }),
{
    let place = buffer::clamp(lines, at);
    let line = lines[place.0];
    let a = line.take(place.1);
    let b = line.skip(place.1);
    assert(unbroken(lines[place.0]));
    lemma_unbroken_parts(line, place.1);
    lemma_split_between(a, t, b);
    lemma_split_clean(t);
    let p = buffer::split_text(t);
    let after = buffer::spliced(lines, place, t);
    let end = buffer::inserted_end(place, t);
    let mid = buffer::split_text(a + t + b);
    assert(after =~= lines.take(place.0) + mid + lines.skip(place.0 + 1));
    assert(after[place.0] == mid[0]);
    assert(after[end.0] == mid.last());
    let kept = mid[0].take(place.1) + mid.last().skip(end.1);
    if p.len() == 1 {
        assert((a + t + b).take(place.1) =~= a);
        assert((a + t + b).skip(end.1) =~= b);
    } else {
        assert((a + p[0]).take(place.1) =~= a);
        assert((p.last() + b).skip(end.1) =~= b);
    }
    assert(a + b =~= line);
    assert(buffer::cut(after, place, end) =~= lines.take(place.0) + seq![kept] + lines.skip(
        place.0 + 1,
    ));
    assert(lines.take(place.0) + seq![line] + lines.skip(place.0 + 1) =~= lines);
}

/// What is deleted character by character and then inserted again leaves the
/// text as it was.
pub proof fn law_delete_is_taken_back(lines: Seq<Seq<char>>, start: (int, int), end: (int, int))
    requires
        clean(lines),
        0 <= start.0 < lines.len(),
        0 <= end.0 < lines.len(),
        0 <= start.1,
        0 <= end.1,
        buffer::in_text(lines, buffer::earlier(start, end)),
    ensures
        ({
            let e = EditView::DeleteRange { start, end, kind: MotionKind::Char };
            let after = applied(lines, e).0;
            &&& applicable(after, inverse(lines, e))
            &&& applied(after, inverse(lines, e)).0 == lines
        }),
{
    let from = buffer::earlier(start, end);
    let to = buffer::later(start, end);
    lemma_insert_back(lines, from, buffer::clamp(lines, to));
}

proof fn lemma_insert_back(lines: Seq<Seq<char>>, from: (int, int), to: (int, int))
    requires
        clean(lines),
        0 <= from.0 <= to.0 < lines.len(),
        0 <= from.1 <= lines[from.0].len(),
        0 <= to.1 <= lines[to.0].len(),
        buffer::at_or_before(from, to),
    ensures
        buffer::clamp(buffer::cut(lines, from, to), from) == from,
        buffer::spliced(
            buffer::cut(lines, from, to),
            from,
            buffer::text_between(lines, from, to),
        ) == lines,
{
    let first = lines[from.0];
    let last = lines[to.0];
    let after = buffer::cut(lines, from, to);
    let kept = first.take(from.1) + last.skip(to.1);
    let t = buffer::text_between(lines, from, to);
    assert(after =~= lines.take(from.0) + seq![kept] + lines.skip(to.0 + 1));
    assert(after[from.0] == kept);
    assert(buffer::clamp(after, from) == from);
    assert(kept.take(from.1) =~= first.take(from.1));
    assert(kept.skip(from.1) =~= last.skip(to.1));
    let rows = lines.subrange(from.0, to.0 + 1);
    assert(buffer::join_text(rows) == first.take(from.1) + t + last.skip(to.1)) by {
        lemma_rows_text(lines, from, to);
    }
    assert(buffer::split_text(buffer::join_text(rows)) == rows) by {
        assert forall|i: int| 0 <= i < rows.len() implies unbroken(#[trigger] rows[i]) by {
            assert(unbroken(lines[from.0 + i]));
        }
        lemma_split_join(rows);
    }
    assert(after.take(from.0) =~= lines.take(from.0));
    assert(after.skip(from.0 + 1) =~= lines.skip(to.0 + 1));
    assert(lines.take(from.0) + rows + lines.skip(to.0 + 1) =~= lines);
}

/// The rows of a range are what lies before it, the text of the range, and
/// what lies behind it.
proof fn lemma_rows_text(lines: Seq<Seq<char>>, from: (int, int), to: (int, int))
    requires
        0 <= from.0 <= to.0 < lines.len(),
        0 <= from.1 <= lines[from.0].len(),
        0 <= to.1 <= lines[to.0].len(),
        buffer::at_or_before(from, to),
    ensures
        buffer::join_text(lines.subrange(from.0, to.0 + 1)) == lines[from.0].take(from.1)
            + buffer::text_between(lines, from, to) + lines[to.0].skip(to.1),
{
    let first = lines[from.0];
    let last = lines[to.0];
    let rows = lines.subrange(from.0, to.0 + 1);
    let t = buffer::text_between(lines, from, to);
    if from.0 == to.0 {
        assert(rows =~= seq![first]);
        assert(first.take(from.1) + t + first.skip(to.1) =~= first);
    } else {
        let mids = lines.subrange(from.0 + 1, to.0);
        lemma_join_grow(
            first.take(from.1),
            first.skip(from.1),
            mids,
            last.take(to.1),
            last.skip(to.1),
        );
        assert(first.take(from.1) + first.skip(from.1) =~= first);
        assert(last.take(to.1) + last.skip(to.1) =~= last);
        assert(seq![first] + mids + seq![last] =~= rows);
    }
}

/// A joined text grows at its ends as its first and last line do.
proof fn lemma_join_grow(
    a: Seq<char>,
    first: Seq<char>,
    mids: Seq<Seq<char>>,
    last: Seq<char>,
    b: Seq<char>,
)
    ensures
        a + buffer::join_text(seq![first] + mids + seq![last]) + b == buffer::join_text(
            seq![a + first] + mids + seq![last + b],
        ),
{
    let s = seq![first] + mids;
    let g = seq![a + first] + mids;
    assert(s + seq![last] =~= s.push(last));
    assert(g + seq![last + b] =~= g.push(last + b));
    buffer::lemma_join_terminated(s, last);
    buffer::lemma_join_terminated(g, last + b);
    lemma_terminated_grow(a, first, mids);
    assert(a + (buffer::terminated(s) + last) + b =~= (a + buffer::terminated(s)) + (last + b));
}

proof fn lemma_terminated_grow(a: Seq<char>, first: Seq<char>, mids: Seq<Seq<char>>)
    ensures
        buffer::terminated(seq![a + first] + mids) == a + buffer::terminated(seq![first] + mids),
    decreases mids.len(),
{
    let s = seq![first] + mids;
    let g = seq![a + first] + mids;
    if mids.len() == 0 {
        let none = Seq::<Seq<char>>::empty();
        assert(s.drop_last() =~= none);
        assert(g.drop_last() =~= none);
        assert(s.last() == first && g.last() == a + first);
        assert(buffer::terminated(none) =~= Seq::<char>::empty());
        assert(buffer::terminated(s) =~= first + seq!['\n']);
        assert(buffer::terminated(g) =~= a + first + seq!['\n']);
        assert(buffer::terminated(g) =~= a + buffer::terminated(s));
    } else {
        lemma_terminated_grow(a, first, mids.drop_last());
        assert(s.drop_last() =~= seq![first] + mids.drop_last());
        assert(g.drop_last() =~= seq![a + first] + mids.drop_last());
        assert(buffer::terminated(g) =~= a + buffer::terminated(s));
    }
}

/// What is replaced and then replaced back leaves the text as it was.
pub proof fn law_replace_is_taken_back(
    lines: Seq<Seq<char>>,
    start: (int, int),
    end: (int, int),
    with: Seq<char>,
)
    requires
        clean(lines),
        0 <= start.0 < lines.len(),
        0 <= end.0 < lines.len(),
        0 <= start.1,
        0 <= end.1,
        buffer::in_text(lines, buffer::earlier(start, end)),
    ensures
        ({
            let e = EditView::Replace { start, end, with };
            let after = applied(lines, e).0;
            &&& applicable(after, inverse(lines, e))
            &&& applied(after, inverse(lines, e)).0 == lines
        }),
{
    let from = buffer::earlier(start, end);
    let to = buffer::clamp(lines, buffer::later(start, end));
    let rest = buffer::cut(lines, from, to);
    lemma_cut_clean(lines, from, to);
    lemma_insert_back(lines, from, to);
    law_insert_is_taken_back(rest, from, with);
    let done = buffer::insertion(rest, from, with);
    lemma_inserted_end_after(from, with);
    assert(buffer::earlier(done.1, done.2) == done.1);
}

proof fn lemma_inserted_end_after(at: (int, int), t: Seq<char>)
    ensures
        buffer::at_or_before(at, buffer::inserted_end(at, t)),
{
    lemma_split_clean(t);
}

proof fn lemma_cut_clean(lines: Seq<Seq<char>>, from: (int, int), to: (int, int))
    requires
        clean(lines),
        0 <= from.0 <= to.0 < lines.len(),
        0 <= from.1 <= lines[from.0].len(),
        0 <= to.1 <= lines[to.0].len(),
    ensures
        clean(buffer::cut(lines, from, to)),
{
    let after = buffer::cut(lines, from, to);
    assert(unbroken(lines[from.0]) && unbroken(lines[to.0]));
    lemma_unbroken_parts(lines[from.0], from.1);
    lemma_unbroken_parts(lines[to.0], to.1);
    assert forall|i: int| 0 <= i < after.len() implies unbroken(#[trigger] after[i]) by {
        if i < from.0 {
            assert(after[i] == lines[i]);
        } else if i > from.0 {
            assert(after[i] == lines[i + to.0 - from.0]);
        } else {
            let a = lines[from.0].take(from.1);
            let b = lines[to.0].skip(to.1);
            assert forall|k: int| 0 <= k < (a + b).len() implies #[trigger] (a + b)[k] != '\n' by {
                if k < a.len() {
                    assert(a[k] != '\n');
                } else {
                    assert(b[k - a.len()] != '\n');
                }
            }
        }
    }
}

} // verus!
