//! Folds: asking which rows are visible, and changing the fold list.
use hjkl_buffer::Buffer as RopeBuffer;
use vstd::prelude::*;

use crate::buffer;
use crate::buffer::Fold;
use crate::rope;

verus! {

/// A change to the fold list.
#[derive(Debug, Clone, Copy, PartialEq, Eq, Structural)]
pub enum FoldOp {
    /// Add a fold over a range of rows.
    Add { start_row: usize, end_row: usize, closed: bool },
    /// Drop the fold that covers a row.
    RemoveAt(usize),
    /// Open the fold that covers a row.
    OpenAt(usize),
    /// Close the fold that covers a row.
    CloseAt(usize),
    /// Flip the fold that covers a row.
    ToggleAt(usize),
    /// Open every fold.
    OpenAll,
    /// Close every fold.
    CloseAll,
    /// Drop every fold.
    ClearAll,
    /// Drop the folds that have a row in a range.
    Invalidate { start_row: usize, end_row: usize },
}

/// The fold list of a buffer of `rows` rows after a change.
pub open spec fn fold_op_applied(folds: Seq<(int, int, bool)>, rows: int, op: FoldOp) -> Seq<
    (int, int, bool),
> {
    match op {
        FoldOp::Add { start_row, end_row, closed } => buffer::fold_added(
            folds,
            rows,
            start_row as int,
            end_row as int,
            closed,
        ),
        FoldOp::RemoveAt(row) => buffer::fold_removed(folds, row as int),
        FoldOp::OpenAt(row) => buffer::fold_set(folds, row as int, false),
        FoldOp::CloseAt(row) => buffer::fold_set(folds, row as int, true),
        FoldOp::ToggleAt(row) => buffer::fold_toggled(folds, row as int),
        FoldOp::OpenAll => buffer::folds_set(folds, false),
        FoldOp::CloseAll => buffer::folds_set(folds, true),
        FoldOp::ClearAll => Seq::<(int, int, bool)>::empty(),
        FoldOp::Invalidate { start_row, end_row } => buffer::folds_outside(
            folds,
            start_row as int,
            end_row as int,
        ),
    }
}

/// Where folds are kept. A host may keep them in a place of its own.
pub trait FoldProvider {
    /// The folds in order: first row, last row, closed or open.
    open spec fn fold_list(&self) -> Seq<(int, int, bool)> {
        arbitrary()
    }

    /// The number of rows that can be stepped through, where the caller counts
    /// `row_count`.
    open spec fn row_limit(&self, row_count: int) -> int {
        arbitrary()
    }

    /// What the fold list becomes when it is asked to change.
    open spec fn after_op(&self, op: FoldOp) -> Seq<(int, int, bool)> {
        arbitrary()
    }

    /// The first row after `row` that no fold hides.
    fn next_visible_row(&self, row: usize, row_count: usize) -> (r: Option<usize>)
        ensures
            buffer::as_row(r) == buffer::next_visible(
                self.fold_list(),
                self.row_limit(row_count as int),
                row as int,
            ),
    ;

    /// The last row before `row` that no fold hides.
    fn prev_visible_row(&self, row: usize) -> (r: Option<usize>)
        ensures
            buffer::as_row(r) == buffer::prev_visible(self.fold_list(), row as int),
    ;

    /// True when some fold hides `row`.
    fn is_row_hidden(&self, row: usize) -> (b: bool)
        ensures
            b == buffer::hidden(self.fold_list(), row as int),
    ;

    /// The first fold that covers `row`: first row, last row, closed or open.
    fn fold_at_row(&self, row: usize) -> (r: Option<(usize, usize, bool)>)
        ensures
            buffer::as_fold(r) == buffer::fold_at(self.fold_list(), row as int),
    ;

    /// Asks for a change of the fold list.
    fn apply(&mut self, op: FoldOp)
        ensures
            final(self).fold_list() == old(self).after_op(op),
    ;

    /// Drops the folds that have a row in a range.
    fn invalidate_range(&mut self, start_row: usize, end_row: usize)
        ensures
            final(self).fold_list() == old(self).after_op(
                FoldOp::Invalidate { start_row, end_row },
            ),
    ;
}

/// No folds at all.
#[derive(Debug, Clone, Copy, PartialEq, Eq, Structural, Default)]
pub struct NoopFoldProvider;

impl FoldProvider for NoopFoldProvider {
    open spec fn fold_list(&self) -> Seq<(int, int, bool)> {
        Seq::<(int, int, bool)>::empty()
    }

    open spec fn row_limit(&self, row_count: int) -> int {
        row_count
    }

    open spec fn after_op(&self, op: FoldOp) -> Seq<(int, int, bool)> {
        Seq::<(int, int, bool)>::empty()
    }

    fn next_visible_row(&self, row: usize, row_count: usize) -> Option<usize> {
        if row < row_count && row_count - row > 1 {
            Some(row + 1)
        } else {
            None
        }
    }

    fn prev_visible_row(&self, row: usize) -> Option<usize> {
        if row == 0 {
            None
        } else {
            Some(row - 1)
        }
    }

    fn is_row_hidden(&self, row: usize) -> bool {
        false
    }

    fn fold_at_row(&self, row: usize) -> Option<(usize, usize, bool)> {
        None
    }

    fn apply(&mut self, op: FoldOp)
        ensures
            *final(self) == *old(self),
    {
    }

    fn invalidate_range(&mut self, start_row: usize, end_row: usize)
        ensures
            *final(self) == *old(self),
    {
    }
}

/// The folds of a borrowed buffer, for reading.
pub struct BufferFoldProvider<'a> {
    pub buffer: &'a RopeBuffer,
}

impl<'a> BufferFoldProvider<'a> {
    /// The folds of `buffer`.
    pub fn new(buffer: &'a RopeBuffer) -> (p: BufferFoldProvider<'a>)
        ensures
            p.buffer == buffer,
    {
        BufferFoldProvider { buffer }
    }
}

impl FoldProvider for BufferFoldProvider<'_> {
    open spec fn fold_list(&self) -> Seq<(int, int, bool)> {
        rope::buffer_folds(*self.buffer)
    }

    open spec fn row_limit(&self, row_count: int) -> int {
        rope::buffer_lines(*self.buffer).len() as int
    }

    open spec fn after_op(&self, op: FoldOp) -> Seq<(int, int, bool)> {
        self.fold_list()
    }

    fn next_visible_row(&self, row: usize, row_count: usize) -> Option<usize> {
        rope::rope_next_visible(self.buffer, row)
    }

    fn prev_visible_row(&self, row: usize) -> Option<usize> {
        rope::rope_prev_visible(self.buffer, row)
    }

    fn is_row_hidden(&self, row: usize) -> bool {
        rope::rope_row_hidden(self.buffer, row)
    }

    fn fold_at_row(&self, row: usize) -> Option<(usize, usize, bool)> {
        rope::rope_fold_at(self.buffer, row)
    }

    fn apply(&mut self, op: FoldOp)
        ensures
            *final(self) == *old(self),
    {
    }

    fn invalidate_range(&mut self, start_row: usize, end_row: usize)
        ensures
            *final(self) == *old(self),
    {
    }
}

/// A fold change was applied to a buffer. The text and the cursor are as they
/// were; the generation moved on where the list changed, and with every fold
/// that was added.
pub open spec fn refolded(b: RopeBuffer, a: RopeBuffer, op: FoldOp) -> bool {
    let rows = rope::buffer_lines(b).len() as int;
    &&& rope::only_folds_changed(b, a)
    &&& rope::buffer_folds(a) == fold_op_applied(rope::buffer_folds(b), rows, op)
    &&& match op {
        FoldOp::Add { start_row, end_row, .. } => rope::buffer_gen(a) == if end_row < start_row
            || start_row >= rows {
            rope::buffer_gen(b)
        } else {
            buffer::bumped(rope::buffer_gen(b))
        },
        _ => rope::gen_follows_folds(b, a),
    }
}

/// Applies a fold change to a buffer.
pub fn apply_fold_op(b: &mut RopeBuffer, op: FoldOp)
    ensures
        refolded(*old(b), *final(b), op),
{
    match op {
        FoldOp::Add { start_row, end_row, closed } => {
            rope::rope_add_fold(b, start_row, end_row, closed);
        },
        FoldOp::RemoveAt(row) => {
            rope::rope_remove_fold(b, row);
        },
        FoldOp::OpenAt(row) => {
            rope::rope_open_fold(b, row);
        },
        FoldOp::CloseAt(row) => {
            rope::rope_close_fold(b, row);
        },
        FoldOp::ToggleAt(row) => {
            rope::rope_toggle_fold(b, row);
        },
        FoldOp::OpenAll => {
            rope::rope_open_folds(b);
        },
        FoldOp::CloseAll => {
            rope::rope_close_folds(b);
        },
        FoldOp::ClearAll => {
            rope::rope_clear_folds(b);
        },
        FoldOp::Invalidate { start_row, end_row } => {
            rope::rope_invalidate_folds(b, start_row, end_row);
        },
    }
}

/// The folds of a mutably borrowed buffer, for reading and changing.
pub struct BufferFoldProviderMut<'a> {
    pub buffer: &'a mut RopeBuffer,
}

impl<'a> BufferFoldProviderMut<'a> {
    /// The folds of `buffer`.
    pub fn new(buffer: &'a mut RopeBuffer) -> (p: BufferFoldProviderMut<'a>)
        ensures
            *p.buffer == *old(buffer),
            *final(buffer) == *final(p.buffer),
    {
        BufferFoldProviderMut { buffer }
    }
}

impl FoldProvider for BufferFoldProviderMut<'_> {
    open spec fn fold_list(&self) -> Seq<(int, int, bool)> {
        rope::buffer_folds(*self.buffer)
    }

    open spec fn row_limit(&self, row_count: int) -> int {
        rope::buffer_lines(*self.buffer).len() as int
    }

    open spec fn after_op(&self, op: FoldOp) -> Seq<(int, int, bool)> {
        fold_op_applied(
            rope::buffer_folds(*self.buffer),
            rope::buffer_lines(*self.buffer).len() as int,
            op,
        )
    }

    fn next_visible_row(&self, row: usize, row_count: usize) -> Option<usize> {
        rope::rope_next_visible(self.buffer, row)
    }

    fn prev_visible_row(&self, row: usize) -> Option<usize> {
        rope::rope_prev_visible(self.buffer, row)
    }

    fn is_row_hidden(&self, row: usize) -> bool {
        rope::rope_row_hidden(self.buffer, row)
    }

    fn fold_at_row(&self, row: usize) -> Option<(usize, usize, bool)> {
        rope::rope_fold_at(self.buffer, row)
    }

    fn apply(&mut self, op: FoldOp)
        ensures
            refolded(*old(self).buffer, *final(self).buffer, op),
            *final(final(self).buffer) == *final(old(self).buffer),
    {
        apply_fold_op(self.buffer, op);
    }

    fn invalidate_range(&mut self, start_row: usize, end_row: usize)
        ensures
            refolded(
                *old(self).buffer,
                *final(self).buffer,
                FoldOp::Invalidate { start_row, end_row },
            ),
            *final(final(self).buffer) == *final(old(self).buffer),
    {
        apply_fold_op(self.buffer, FoldOp::Invalidate { start_row, end_row });
    }
}

/// A copy of a buffer's fold list and row count, free of the buffer's borrow.
pub struct SnapshotFoldProvider {
    pub folds: Vec<Fold>,
    pub row_count: usize,
}

/// The triples of a list of folds.
pub open spec fn triples(folds: Seq<Fold>) -> Seq<(int, int, bool)> {
    Seq::new(folds.len(), |i: int| folds[i].triple())
}

impl SnapshotFoldProvider {
    /// The folds of `buffer` as they are now.
    pub fn from_buffer(b: &RopeBuffer) -> (p: SnapshotFoldProvider)
        ensures
            triples(p.folds@) == rope::buffer_folds(*b),
            p.row_count == rope::buffer_lines(*b).len(),
    {
        let folds = rope::rope_folds(b);
        assert(triples(folds@) =~= rope::buffer_folds(*b));
        SnapshotFoldProvider { folds, row_count: rope::rope_row_count(b) }
    }

    /// True when some fold of the snapshot hides `row`.
    fn snapshot_is_row_hidden(&self, row: usize) -> (b: bool)
        ensures
            b == buffer::hidden(triples(self.folds@), row as int),
    {
        let mut i: usize = 0;
        while i < self.folds.len()
            invariant
                i <= self.folds@.len(),
                forall|k: int|
                    0 <= k < i ==> !buffer::hides(#[trigger] triples(self.folds@)[k], row as int),
            decreases self.folds.len() - i,
        {
            let f = self.folds[i];
            if f.closed && f.start_row < row && row <= f.end_row {
                assert(buffer::hides(triples(self.folds@)[i as int], row as int));
                return true;
            }
            i = i + 1;
        }
        false
    }
}

impl FoldProvider for SnapshotFoldProvider {
    open spec fn fold_list(&self) -> Seq<(int, int, bool)> {
        triples(self.folds@)
    }

    open spec fn row_limit(&self, row_count: int) -> int {
        self.row_count as int
    }

    open spec fn after_op(&self, op: FoldOp) -> Seq<(int, int, bool)> {
        self.fold_list()
    }

    fn next_visible_row(&self, row: usize, row_count: usize) -> Option<usize> {
        let n: usize = self.row_count;
        let mut r: usize = row;
        while r < n && n - r > 1
            invariant
                n == self.row_count,
                buffer::next_visible(triples(self.folds@), n as int, row as int)
                    == buffer::next_visible(triples(self.folds@), n as int, r as int),
            decreases n - r,
        {
            r = r + 1;
            if !self.snapshot_is_row_hidden(r) {
                return Some(r);
            }
        }
        None
    }

    fn prev_visible_row(&self, row: usize) -> Option<usize> {
        let mut r: usize = row;
        while r > 0
            invariant
                buffer::prev_visible(triples(self.folds@), row as int) == buffer::prev_visible(
                    triples(self.folds@),
                    r as int,
                ),
            decreases r,
        {
            r = r - 1;
            if !self.snapshot_is_row_hidden(r) {
                return Some(r);
            }
        }
        None
    }

    fn is_row_hidden(&self, row: usize) -> bool {
        self.snapshot_is_row_hidden(row)
    }

    fn fold_at_row(&self, row: usize) -> Option<(usize, usize, bool)> {
        let ghost list = triples(self.folds@);
        let ghost p = |f: (int, int, bool)| buffer::covers(f, row as int);
        let mut i: usize = 0;
        while i < self.folds.len()
            invariant
                i <= self.folds@.len(),
                list == triples(self.folds@),
                p == (|f: (int, int, bool)| buffer::covers(f, row as int)),
                forall|k: int| 0 <= k < i ==> !p(#[trigger] list[k]),
            decreases self.folds.len() - i,
        {
            let f = self.folds[i];
            if f.start_row <= row && row <= f.end_row {
                proof {
                    buffer::lemma_first_where(list, p, i as int);
                }
                return Some((f.start_row, f.end_row, f.closed));
            }
            i = i + 1;
        }
        proof {
            buffer::lemma_first_where(list, p, i as int);
        }
        None
    }

    fn apply(&mut self, op: FoldOp)
        ensures
            *final(self) == *old(self),
    {
    }

    fn invalidate_range(&mut self, start_row: usize, end_row: usize)
        ensures
            *final(self) == *old(self),
    {
    }
}

/// The row that a step down lands on is visible, lies below, and skips hidden
/// rows only; there is none exactly when every row below is hidden.
pub proof fn law_next_visible(folds: Seq<(int, int, bool)>, rows: int, row: int)
    requires
        0 <= row,
    ensures
        match buffer::next_visible(folds, rows, row) {
            Some(r) => {
                &&& row < r < rows
                &&& !buffer::hidden(folds, r)
                &&& forall|k: int| row < k < r ==> #[trigger] buffer::hidden(folds, k)
            },
            None => forall|k: int| row < k < rows ==> #[trigger] buffer::hidden(folds, k),
        },
    decreases rows - row,
{
    if row + 1 < rows && buffer::hidden(folds, row + 1) {
        law_next_visible(folds, rows, row + 1);
    }
}

/// The row that a step up lands on is visible, lies above, and skips hidden
/// rows only; there is none exactly when every row above is hidden.
pub proof fn law_prev_visible(folds: Seq<(int, int, bool)>, row: int)
    ensures
        match buffer::prev_visible(folds, row) {
            Some(r) => {
                &&& 0 <= r < row
                &&& !buffer::hidden(folds, r)
                &&& forall|k: int| r < k < row ==> #[trigger] buffer::hidden(folds, k)
            },
            None => forall|k: int| 0 <= k < row ==> #[trigger] buffer::hidden(folds, k),
        },
    decreases row,
{
    if row > 0 && buffer::hidden(folds, row - 1) {
        law_prev_visible(folds, row - 1);
    }
}

/// A step down from a visible row and a step back up return to it.
pub proof fn law_down_then_up(folds: Seq<(int, int, bool)>, rows: int, row: int)
    requires
        0 <= row,
        !buffer::hidden(folds, row),
        buffer::next_visible(folds, rows, row) is Some,
    ensures
        buffer::prev_visible(folds, buffer::next_visible(folds, rows, row)->0) == Some(row),
{
    law_next_visible(folds, rows, row);
    law_prev_visible(folds, buffer::next_visible(folds, rows, row)->0);
    let r = buffer::next_visible(folds, rows, row)->0;
    match buffer::prev_visible(folds, r) {
        Some(q) => {
            if q < row {
                assert(buffer::hidden(folds, row));
            } else if q > row {
                assert(buffer::hidden(folds, q));
            }
        },
        None => {
            assert(buffer::hidden(folds, row));
        },
    }
}

} // verus!
