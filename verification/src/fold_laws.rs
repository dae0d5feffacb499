//! What folds promise of the rows they hide, and what each change of a fold list
//! does to them.
use hjkl_buffer::Buffer as RopeBuffer;
use vstd::prelude::*;

use crate::buffer;
use crate::folds;
use crate::folds::{FoldOp, FoldProvider, SnapshotFoldProvider};
use crate::rope;
use crate::text;

verus! {

/// The fold at index `i` is the first one of a list that has a row in its range.
pub open spec fn first_around(list: Seq<(int, int, bool)>, row: int, i: int) -> bool {
    &&& 0 <= i < list.len()
    &&& list[i].0 <= row <= list[i].1
    &&& forall|j: int| 0 <= j < i ==> row < (#[trigger] list[j]).0 || list[j].1 < row
}

/// No fold of a list has a row in its range.
pub open spec fn none_around(list: Seq<(int, int, bool)>, row: int) -> bool {
    forall|j: int| 0 <= j < list.len() ==> row < (#[trigger] list[j]).0 || list[j].1 < row
}

/// Every fold starts further down than the one before it.
pub open spec fn starts_rise(list: Seq<(int, int, bool)>) -> bool {
    forall|i: int, j: int| 0 <= i < j < list.len() ==> (#[trigger] list[i]).0 < (#[trigger] list[j]).0
}

/// A row is hidden when it lies in the range of a closed fold, behind the first
/// row of it: the first row stays in sight, and so does everything in an open
/// fold.
pub proof fn law_closed_folds_hide(list: Seq<(int, int, bool)>, row: int)
    ensures
        buffer::hidden(list, row) <==> exists|i: int|
            0 <= i < list.len() && (#[trigger] list[i]).2 && list[i].0 < row && row <= list[i].1,
{
    if buffer::hidden(list, row) {
        let i = choose|i: int| 0 <= i < list.len() && buffer::hides(#[trigger] list[i], row);
        assert(list[i].2 && list[i].0 < row && row <= list[i].1);
    }
    if exists|i: int|
        0 <= i < list.len() && (#[trigger] list[i]).2 && list[i].0 < row && row <= list[i].1 {
        let i = choose|i: int|
            0 <= i < list.len() && (#[trigger] list[i]).2 && list[i].0 < row && row <= list[i].1;
        assert(buffer::hides(list[i], row));
    }
}

/// The fold at a row is the first one of the list that has the row in its range,
/// both ends counted; there is none exactly when no fold has it.
pub proof fn law_fold_at_a_row(list: Seq<(int, int, bool)>, row: int, i: int)
    ensures
        first_around(list, row, i) ==> buffer::fold_at(list, row) == Some(list[i]),
        buffer::fold_at(list, row) is None <==> none_around(list, row),
{
    lemma_index(list, row, i);
}

proof fn lemma_index(list: Seq<(int, int, bool)>, row: int, i: int)
    ensures
        first_around(list, row, i) ==> buffer::fold_index(list, row) == i,
        0 <= buffer::fold_index(list, row) <= list.len(),
        buffer::fold_index(list, row) < list.len() ==> !none_around(list, row),
        buffer::fold_index(list, row) == list.len() ==> none_around(list, row),
{
    let p = |f: (int, int, bool)| buffer::covers(f, row);
    buffer::lemma_first_where_range(list, p);
    let n = buffer::fold_index(list, row);
    if first_around(list, row, i) {
        buffer::lemma_first_where(list, p, i);
    }
    if n < list.len() {
        assert(p(list[n]));
        assert(list[n].0 <= row <= list[n].1);
    } else {
        assert forall|j: int| 0 <= j < list.len() implies row < (#[trigger] list[j]).0
            || list[j].1 < row by {
            assert(!p(list[j]));
        }
    }
}

/// Opening, closing or flipping the fold at a row touches the first fold that has
/// the row in its range and no other, and leaves every range as it is.
pub proof fn law_one_fold_changes(
    b: RopeBuffer,
    a: RopeBuffer,
    op: FoldOp,
    row: usize,
    i: int,
)
    requires
        folds::refolded(b, a, op),
        op == FoldOp::OpenAt(row) || op == FoldOp::CloseAt(row) || op == FoldOp::ToggleAt(row),
        0 <= i < rope::buffer_folds(b).len(),
    ensures
        ({
            let was = rope::buffer_folds(b);
            let now = rope::buffer_folds(a);
            &&& now.len() == was.len()
            &&& now[i].0 == was[i].0 && now[i].1 == was[i].1
            &&& !first_around(was, row as int, i) ==> now[i].2 == was[i].2
            &&& first_around(was, row as int, i) ==> match op {
                FoldOp::OpenAt(_) => !now[i].2,
                FoldOp::CloseAt(_) => now[i].2,
                _ => now[i].2 != was[i].2,
            }
        }),
{
    let was = rope::buffer_folds(b);
    lemma_index(was, row as int, i);
    let p = |f: (int, int, bool)| buffer::covers(f, row as int);
    buffer::lemma_first_where_range(was, p);
    let n = buffer::fold_index(was, row as int);
    if n < was.len() {
        assert forall|j: int| 0 <= j < n implies (row as int) < (#[trigger] was[j]).0 || was[j].1
            < row as int by {
            assert(!p(was[j]));
        }
        assert(p(was[n]));
        assert(first_around(was, row as int, n));
    }
}

/// Flipping the fold at a row twice changes nothing.
pub proof fn law_two_flips(b: RopeBuffer, m: RopeBuffer, a: RopeBuffer, row: usize)
    requires
        folds::refolded(b, m, FoldOp::ToggleAt(row)),
        folds::refolded(m, a, FoldOp::ToggleAt(row)),
    ensures
        rope::buffer_folds(a) == rope::buffer_folds(b),
{
    let was = rope::buffer_folds(b);
    let mid = rope::buffer_folds(m);
    let n = buffer::fold_index(was, row as int);
    let p = |f: (int, int, bool)| buffer::covers(f, row as int);
    buffer::lemma_first_where_range(was, p);
    if n < was.len() {
        assert forall|k: int| 0 <= k < n implies !p(#[trigger] mid[k]) by {
            assert(mid[k] == was[k]);
            assert(!p(was[k]));
        }
        assert(p(was[n]));
        assert(p(mid[n]));
        buffer::lemma_first_where(mid, p, n);
        assert(rope::buffer_folds(a) =~= was);
    }
}

/// Opening all folds hides no row, closing all hides every row behind the first
/// of a fold, and neither moves a fold; clearing leaves none.
pub proof fn law_all_folds_change(b: RopeBuffer, a: RopeBuffer, op: FoldOp, row: int)
    requires
        folds::refolded(b, a, op),
        op is OpenAll || op is CloseAll || op is ClearAll,
    ensures
        op is ClearAll ==> rope::buffer_folds(a).len() == 0,
        !(op is ClearAll) ==> rope::buffer_folds(a).len() == rope::buffer_folds(b).len(),
        !(op is CloseAll) ==> !buffer::hidden(rope::buffer_folds(a), row),
        op is CloseAll ==> (buffer::hidden(rope::buffer_folds(a), row) <==> exists|i: int|
            0 <= i < rope::buffer_folds(b).len() && (#[trigger] rope::buffer_folds(b)[i]).0 < row
                && row <= rope::buffer_folds(b)[i].1),
        !(op is ClearAll) ==> forall|i: int|
            0 <= i < rope::buffer_folds(b).len() ==> (#[trigger] rope::buffer_folds(a)[i]).0
                == rope::buffer_folds(b)[i].0 && rope::buffer_folds(a)[i].1 == rope::buffer_folds(
                b,
            )[i].1,
{
    let was = rope::buffer_folds(b);
    let now = rope::buffer_folds(a);
    law_closed_folds_hide(now, row);
    if op is CloseAll {
        if exists|i: int| 0 <= i < was.len() && (#[trigger] was[i]).0 < row && row <= was[i].1 {
            let i = choose|i: int|
                0 <= i < was.len() && (#[trigger] was[i]).0 < row && row <= was[i].1;
            assert(now[i].2 && now[i].0 < row && row <= now[i].1);
        }
        if buffer::hidden(now, row) {
            let i = choose|i: int|
                0 <= i < now.len() && (#[trigger] now[i]).2 && now[i].0 < row && row <= now[i].1;
            assert(was[i].0 < row && row <= was[i].1);
        }
    }
}

/// Dropping the folds of a range keeps exactly those that end above its first row
/// or start below its last.
pub proof fn law_folds_of_a_range_go(
    b: RopeBuffer,
    a: RopeBuffer,
    start: usize,
    end: usize,
    f: (int, int, bool),
)
    requires
        folds::refolded(b, a, FoldOp::Invalidate { start_row: start, end_row: end }),
    ensures
        rope::buffer_folds(a).contains(f) <==> rope::buffer_folds(b).contains(f) && (f.1 < start
            || f.0 > end),
{
    lemma_outside(rope::buffer_folds(b), start as int, end as int, f);
}

/// The folds outside a range are those that end above it or start below it.
pub(crate) proof fn lemma_outside(
    list: Seq<(int, int, bool)>,
    start: int,
    end: int,
    f: (int, int, bool),
)
    ensures
        buffer::folds_outside(list, start, end).contains(f) <==> list.contains(f) && (f.1 < start
            || f.0 > end),
{
    lemma_filtered(list, |f: (int, int, bool)| f.1 < start || f.0 > end, f);
}

proof fn lemma_filtered(
    list: Seq<(int, int, bool)>,
    p: spec_fn((int, int, bool)) -> bool,
    f: (int, int, bool),
)
    ensures
        list.filter(p).contains(f) <==> list.contains(f) && p(f),
    decreases list.len(),
{
    reveal(Seq::filter);
    if list.len() > 0 {
        let head = list.drop_last();
        lemma_filtered(head, p, f);
        let out = head.filter(p);
        if list.contains(f) {
            let i = list.index_of(f);
            if i < head.len() {
                assert(head[i] == f);
            } else {
                assert(list.last() == f);
            }
        }
        if head.contains(f) {
            assert(list[head.index_of(f)] == f);
        }
        assert(list[list.len() - 1] == list.last());
        if p(list.last()) {
            let more = out.push(list.last());
            assert(more[out.len() as int] == list.last());
            if out.contains(f) {
                assert(more[out.index_of(f)] == f);
            }
            if more.contains(f) && f != list.last() {
                let i = more.index_of(f);
                assert(i < out.len());
                assert(out[i] == f);
            }
        }
    }
}

/// A fold that is added is in the list then, cut off at the last row; it takes the
/// place of the fold with the same first row, and the others stay. Ranges that are
/// empty or start behind the last row add nothing.
pub proof fn law_added_fold_is_there(
    b: RopeBuffer,
    a: RopeBuffer,
    start: usize,
    end: usize,
    closed: bool,
    f: (int, int, bool),
)
    requires
        folds::refolded(b, a, FoldOp::Add { start_row: start, end_row: end, closed }),
        starts_rise(rope::buffer_folds(b)),
    ensures
        ({
            let was = rope::buffer_folds(b);
            let now = rope::buffer_folds(a);
            let rows = rope::buffer_lines(b).len();
            if start <= end && start < rows {
                &&& starts_rise(now)
                &&& f.0 != start ==> (now.contains(f) <==> was.contains(f))
                &&& f.0 == start ==> (now.contains(f) <==> f.2 == closed && (f.1 == end && end
                    < rows || f.1 == rows - 1 && end >= rows))
            } else {
                now == was
            }
        }),
{
    if start <= end && start < rope::buffer_lines(b).len() {
    lemma_added(
        rope::buffer_folds(b),
        rope::buffer_lines(b).len() as int,
        start as int,
        end as int,
        closed,
        f,
    );
    }
}

proof fn lemma_added(
    was: Seq<(int, int, bool)>,
    rows: int,
    s: int,
    end: int,
    closed: bool,
    f: (int, int, bool),
)
    requires
        starts_rise(was),
        s <= end && s < rows,
    ensures
        ({
            let now = buffer::fold_added(was, rows, s, end, closed);
            &&& starts_rise(now)
            &&& f.0 != s ==> (now.contains(f) <==> was.contains(f))
            &&& f.0 == s ==> (now.contains(f) <==> f.2 == closed && (f.1 == end && end < rows
                || f.1 == rows - 1 && end >= rows))
        }),
{
    let now = buffer::fold_added(was, rows, s, end, closed);
    let same = |f: (int, int, bool)| buffer::starts_at(f, s);
    let after = |f: (int, int, bool)| buffer::starts_after(f, s);
    buffer::lemma_first_where_range(was, same);
    buffer::lemma_first_where_range(was, after);
    let i = buffer::first_where(was, same);
    let j = buffer::first_where(was, after);
    let fold = (s, if end < rows { end } else { rows - 1 }, closed);
    assert(text::min(end, rows - 1) == fold.1);
    if i < was.len() {
        assert(same(was[i]));
        assert(now == was.update(i, fold));
        assert(now[i] == fold);
        assert forall|x: int, y: int| 0 <= x < y < now.len() implies (#[trigger] now[x]).0 < (
        #[trigger] now[y]).0 by {
            assert(was[x].0 < was[y].0);
        }
        if f.0 != s {
            if was.contains(f) {
                let k = was.index_of(f);
                assert(now[k] == f);
            }
            if now.contains(f) {
                let k = now.index_of(f);
                assert(was[k] == f);
            }
        } else if now.contains(f) {
            let k = now.index_of(f);
            if k < i {
                assert(now[k].0 < now[i].0);
            } else if k > i {
                assert(now[i].0 < now[k].0);
            }
        }
    } else {
        assert(now == was.insert(j, fold));
        assert(now[j] == fold);
        assert forall|k: int| 0 <= k < was.len() implies (#[trigger] was[k]).0 != s by {
            assert(!same(was[k]));
        }
        assert forall|k: int| 0 <= k < j implies (#[trigger] was[k]).0 < s by {
            assert(!after(was[k]));
            assert(was[k].0 != s);
        }
        assert forall|k: int| j <= k < was.len() implies (#[trigger] was[k]).0 > s by {
            assert(after(was[j]));
            if k > j {
                assert(was[j].0 < was[k].0);
            }
        }
        assert forall|k: int| 0 <= k < now.len() implies #[trigger] now[k] == (if k < j {
            was[k]
        } else if k == j {
            fold
        } else {
            was[k - 1]
        }) by {}
        assert forall|x: int, y: int| 0 <= x < y < now.len() implies (#[trigger] now[x]).0 < (
        #[trigger] now[y]).0 by {
            let wx = if x < j { x } else { x - 1 };
            let wy = if y < j { y } else { y - 1 };
            if x != j && y != j {
                assert(was[wx].0 < was[wy].0);
            } else if x == j {
                assert(was[wy].0 > s);
            } else {
                assert(was[wx].0 < s);
            }
        }
        if f.0 != s {
            if was.contains(f) {
                let k = was.index_of(f);
                if k < j {
                    assert(now[k] == f);
                } else {
                    assert(now[k + 1] == f);
                }
            }
            if now.contains(f) {
                let k = now.index_of(f);
                if k < j {
                    assert(was[k] == f);
                } else {
                    assert(was[k - 1] == f);
                }
            }
        } else if now.contains(f) {
            let k = now.index_of(f);
            if k < j {
                assert(was[k].0 == s);
            } else if k > j {
                assert(was[k - 1].0 == s);
            }
        }
    }
}

/// Removing the fold at a row takes out the first fold that has the row in its
/// range, and nothing where none has it.
pub proof fn law_one_fold_goes(b: RopeBuffer, a: RopeBuffer, row: usize, i: int)
    requires
        folds::refolded(b, a, FoldOp::RemoveAt(row)),
    ensures
        first_around(rope::buffer_folds(b), row as int, i) ==> rope::buffer_folds(a)
            == rope::buffer_folds(b).take(i) + rope::buffer_folds(b).skip(i + 1),
        none_around(rope::buffer_folds(b), row as int) ==> rope::buffer_folds(a)
            == rope::buffer_folds(b),
{
    let was = rope::buffer_folds(b);
    lemma_index(was, row as int, i);
    if first_around(was, row as int, i) {
        assert(was.remove(i) =~= was.take(i) + was.skip(i + 1));
    }
}

/// No change of folds touches the text or the cursor.
pub proof fn law_folds_leave_the_text(b: RopeBuffer, a: RopeBuffer, op: FoldOp)
    requires
        folds::refolded(b, a, op),
    ensures
        rope::buffer_lines(a) == rope::buffer_lines(b),
        rope::buffer_cursor(a) == rope::buffer_cursor(b),
{
}

/// A copy of a fold list answers for the list as it was: it takes no changes.
pub proof fn law_copied_folds_stay(p: SnapshotFoldProvider, op: FoldOp, count: int)
    ensures
        p.after_op(op) == p.fold_list(),
        p.fold_list().len() == p.folds@.len(),
        p.row_limit(count) == p.row_count,
        forall|i: int|
            0 <= i < p.folds@.len() ==> #[trigger] p.fold_list()[i] == (
                p.folds@[i].start_row as int,
                p.folds@[i].end_row as int,
                p.folds@[i].closed,
            ),
{
}

/// A change of the fold list gives the buffer a new generation, and so does every
/// fold that is added; a change that comes to nothing does not.
pub proof fn law_folds_move_the_generation(b: RopeBuffer, a: RopeBuffer, op: FoldOp)
    requires
        folds::refolded(b, a, op),
    ensures
        rope::buffer_folds(a) != rope::buffer_folds(b) ==> rope::buffer_gen(a) != rope::buffer_gen(
            b,
        ),
        rope::buffer_folds(a) == rope::buffer_folds(b) && !(op is Add) ==> rope::buffer_gen(a)
            == rope::buffer_gen(b),
        op matches FoldOp::Add { start_row, end_row, .. } ==> (rope::buffer_gen(a)
            != rope::buffer_gen(b) <==> start_row <= end_row && start_row < rope::buffer_lines(
            b,
        ).len()),
{
}

} // verus!
