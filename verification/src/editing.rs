//! What changes the text: edits, the undo history and whole new texts.
use std::sync::Arc;

use hjkl_buffer::Buffer as RopeBuffer;
use vstd::prelude::*;

use crate::buffer;
use crate::buffer::{Edit, MotionKind};
use crate::buffer_impl;
use crate::content;
use crate::content::ContentEdit;
use crate::editor::Editor;
use crate::edits;
use crate::folds;
use crate::folds::FoldOp;
use crate::marks;
use crate::marks::RowShift;
use crate::motions;
use crate::rope;
use crate::state::VimState;
use crate::surface::{BufferEdit, Cursor, Query};
use crate::text;
use crate::types::{Edit as EditOp, Host, Pos};
use crate::VimMode;

verus! {

/// The text of a buffer as a file has it: every line with its line break.
pub open spec fn content_of(b: RopeBuffer) -> Seq<char> {
    buffer::terminated(b.rows())
}

/// The shared text, where there is one, is the text of the buffer.
pub open spec fn cache_is_true<H: Host>(e: Editor<RopeBuffer, H>) -> bool {
    match e.cached_content {
        Some(c) => c@ == content_of(e.buffer),
        None => true,
    }
}

/// An entry of the undo history: lines and cursor.
pub open spec fn entry_view(e: (Vec<String>, (usize, usize))) -> (Seq<Seq<char>>, (usize, usize)) {
    (buffer::texts(e.0@), e.1)
}

/// The entries of an undo history.
pub open spec fn entry_views(s: Seq<(Vec<String>, (usize, usize))>) -> Seq<
    (Seq<Seq<char>>, (usize, usize)),
> {
    Seq::new(s.len(), |i: int| entry_view(s[i]))
}

/// The entry that stands for what a buffer holds now.
pub open spec fn entry_of(b: RopeBuffer) -> (Seq<Seq<char>>, (usize, usize)) {
    (b.rows(), (b.at().line as usize, b.at().col as usize))
}

/// The last `cap` entries of a history; all of them where `cap` is 0.
pub open spec fn capped<A>(s: Seq<A>, cap: int) -> Seq<A> {
    if cap > 0 && s.len() > cap {
        s.skip(s.len() - cap)
    } else {
        s
    }
}

/// The buffer holds `lines` as one new text with the cursor sent to a place.
pub open spec fn restored(
    b: RopeBuffer,
    a: RopeBuffer,
    lines: Seq<Seq<char>>,
    cursor: (usize, usize),
) -> bool {
    let now = buffer::split_text(buffer::join_text(lines));
    let p = buffer_impl::as_pos((cursor.0 as int, cursor.1 as int));
    &&& rope::buffer_lines(a) == now
    &&& rope::buffer_cursor(a) == buffer::clamp(now, buffer_impl::as_place(p))
    &&& rope::buffer_folds(a) == rope::buffer_folds(b)
    &&& rope::buffer_gen(a) == buffer::bumped(rope::buffer_gen(b))
}

/// The lines of a list with a line break between each two.
pub(crate) fn join_lines(v: &Vec<String>) -> (s: String)
    ensures
        s@ == buffer::join_text(buffer::texts(v@)),
{
    let mut s = String::new();
    let ghost all = buffer::texts(v@);
    if v.len() == 0 {
        return s;
    }
    s.push_str(v[0].as_str());
    let mut i: usize = 1;
    assert(all.take(1) =~= seq![all[0]]);
    assert(s@ =~= buffer::join_text(all.take(1)));
    while i < v.len()
        invariant
            all == buffer::texts(v@),
            1 <= i <= v.len(),
            s@ == buffer::join_text(all.take(i as int)),
        decreases v.len() - i,
    {
        s.push('\n');
        s.push_str(v[i].as_str());
        i = i + 1;
        assert(all.take(i as int).drop_last() =~= all.take(i - 1));
        assert(s@ =~= buffer::join_text(all.take(i as int)));
    }
    assert(all.take(i as int) =~= all);
    s
}

/// The rows of a buffer.
pub(crate) fn lines_to_vec(b: &RopeBuffer) -> (v: Vec<String>)
    ensures
        buffer::texts(v@) == b.rows(),
{
    let n: usize = motions::read_row_count(b);
    let mut v: Vec<String> = Vec::new();
    let mut r: usize = 0;
    while r < n
        invariant
            n == b.rows().len(),
            n <= u32::MAX,
            r <= n,
            buffer::texts(v@) == b.rows().take(r as int),
        decreases n - r,
    {
        let ghost before = v@;
        v.push(Query::line(b, r as u32).to_string());
        r = r + 1;
        assert(buffer::texts(v@) =~= buffer::texts(before).push(b.rows()[r - 1]));
        assert(b.rows().take(r as int) =~= b.rows().take(r - 1).push(b.rows()[r - 1]));
    }
    assert(b.rows().take(r as int) =~= b.rows());
    v
}

impl<H: Host> Editor<RopeBuffer, H> {
    // ── Reading the text ────────────────────────────────────────────

    /// The text, every line with its line break.
    pub fn content(&self) -> (s: String)
        ensures
            s@ == content_of(self.buffer),
    {
        let n: usize = motions::read_row_count(&self.buffer);
        let mut s = String::new();
        let mut r: usize = 0;
        let ghost rows = self.buffer.rows();
        while r < n
            invariant
                rows == self.buffer.rows(),
                n == rows.len(),
                n <= u32::MAX,
                r <= n,
                s@ == buffer::terminated(rows.take(r as int)),
            decreases n - r,
        {
            s.push_str(Query::line(&self.buffer, r as u32));
            s.push('\n');
            r = r + 1;
            assert(rows.take(r as int).drop_last() =~= rows.take(r - 1));
            assert(s@ =~= buffer::terminated(rows.take(r as int)));
        }
        assert(rows.take(r as int) =~= rows);
        s
    }

    /// The text as in [`Editor::content`], shared: as long as nothing marks it
    /// dirty, the same string is handed out again.
    pub fn content_arc(&mut self) -> (a: Arc<String>)
        ensures
            match old(self).cached_content {
                Some(c) => a == c,
                None => a@ == content_of(old(self).buffer),
            },
            cache_is_true(*old(self)) ==> a@ == content_of(old(self).buffer) && cache_is_true(
                *final(self),
            ),
            *final(self) == (Editor { cached_content: Some(a), ..*old(self) }),
    {
        if let Some(a) = &self.cached_content {
            let a = Arc::clone(a);
            return a;
        }
        let a = Arc::new(self.content());
        self.cached_content = Some(Arc::clone(&a));
        a
    }

    /// Notes that the text changed.
    pub fn mark_content_dirty(&mut self)
        ensures
            *final(self) == (Editor {
                content_dirty: true,
                cached_content: None,
                ..*old(self)
            }),
    {
        self.content_dirty = true;
        self.cached_content = None;
    }

    /// Whether the text changed since the last call.
    pub fn take_dirty(&mut self) -> (b: bool)
        ensures
            b == old(self).content_dirty,
            *final(self) == (Editor { content_dirty: false, ..*old(self) }),
    {
        let b = self.content_dirty;
        self.content_dirty = false;
        b
    }

    /// The text, where it changed since the last call.
    pub fn take_content_change(&mut self) -> (r: Option<Arc<String>>)
        ensures
            !old(self).content_dirty ==> r is None && *final(self) == *old(self),
            old(self).content_dirty ==> r is Some && match old(self).cached_content {
                Some(c) => r->0 == c,
                None => r->0@ == content_of(old(self).buffer),
            } && *final(self) == (Editor {
                content_dirty: false,
                cached_content: r,
                ..*old(self)
            }),
    {
        if !self.content_dirty {
            return None;
        }
        let a = self.content_arc();
        self.content_dirty = false;
        Some(a)
    }

    /// Fetches the byte records of the edits since the last call.
    pub fn take_content_edits(&mut self) -> (v: Vec<ContentEdit>)
        ensures
            v@ == old(self).pending_content_edits@,
            final(self).pending_content_edits@ == Seq::<ContentEdit>::empty(),
            *final(self) == (Editor {
                pending_content_edits: final(self).pending_content_edits,
                ..*old(self)
            }),
    {
        let mut v: Vec<ContentEdit> = Vec::new();
        std::mem::swap(&mut v, &mut self.pending_content_edits);
        v
    }

    /// Whether the text was replaced as a whole since the last call.
    pub fn take_content_reset(&mut self) -> (b: bool)
        ensures
            b == old(self).pending_content_reset,
            *final(self) == (Editor { pending_content_reset: false, ..*old(self) }),
    {
        let b = self.pending_content_reset;
        self.pending_content_reset = false;
        b
    }

    /// Fetches the edit records of the edits since the last call.
    pub fn take_changes(&mut self) -> (v: Vec<EditOp>)
        ensures
            v@ == old(self).change_log@,
            final(self).change_log@ == Seq::<EditOp>::empty(),
            *final(self) == (Editor { change_log: final(self).change_log, ..*old(self) }),
    {
        let mut v: Vec<EditOp> = Vec::new();
        std::mem::swap(&mut v, &mut self.change_log);
        v
    }

    // ── Whole new texts ─────────────────────────────────────────────

    /// Replaces the text as a whole and forgets the undo history.
    pub fn set_content(&mut self, t: &str)
        ensures
            rope::edited(
                old(self).buffer,
                final(self).buffer,
                buffer::split_text(t@),
                rope::buffer_cursor(old(self).buffer),
            ),
            final(self).undo_stack@.len() == 0,
            final(self).redo_stack@.len() == 0,
            final(self).pending_content_edits@.len() == 0,
            *final(self) == (Editor {
                buffer: final(self).buffer,
                undo_stack: final(self).undo_stack,
                redo_stack: final(self).redo_stack,
                pending_content_edits: final(self).pending_content_edits,
                pending_content_reset: true,
                content_dirty: true,
                cached_content: None,
                ..*old(self)
            }),
    {
        BufferEdit::replace_all(&mut self.buffer, t);
        self.undo_stack.clear();
        self.redo_stack.clear();
        self.pending_content_edits.clear();
        self.pending_content_reset = true;
        self.mark_content_dirty();
    }

    /// Replaces the text by the given lines and sends the cursor to a place.
    pub fn restore(&mut self, lines: Vec<String>, cursor: (usize, usize))
        ensures
            restored(
                old(self).buffer,
                final(self).buffer,
                buffer::texts(lines@),
                cursor,
            ),
            final(self).pending_content_edits@.len() == 0,
            *final(self) == (Editor {
                buffer: final(self).buffer,
                pending_content_edits: final(self).pending_content_edits,
                pending_content_reset: true,
                content_dirty: true,
                cached_content: None,
                ..*old(self)
            }),
    {
        let t = join_lines(&lines);
        BufferEdit::replace_all(&mut self.buffer, t.as_str());
        Cursor::set_cursor(&mut self.buffer, Pos { line: cursor.0 as u32, col: cursor.1 as u32 });
        self.pending_content_edits.clear();
        self.pending_content_reset = true;
        self.mark_content_dirty();
    }

    // ── Undo ────────────────────────────────────────────────────────

    /// What the buffer holds now, as an entry of the undo history.
    pub fn snapshot(&self) -> (e: (Vec<String>, (usize, usize)))
        ensures
            entry_view(e) == entry_of(self.buffer),
    {
        let cursor = motions::read_cursor(&self.buffer);
        (lines_to_vec(&self.buffer), (cursor.row, cursor.col))
    }

    /// Drops the oldest undo entries where there are more than the settings
    /// allow.
    pub fn cap_undo(&mut self)
        ensures
            final(self).undo_stack@ == capped(
                old(self).undo_stack@,
                old(self).settings.undo_levels as int,
            ),
            *final(self) == (Editor { undo_stack: final(self).undo_stack, ..*old(self) }),
    {
        let cap: usize = self.settings.undo_levels as usize;
        let n: usize = self.undo_stack.len();
        if cap > 0 && n > cap {
            let keep = self.undo_stack.split_off(n - cap);
            self.undo_stack = keep;
        }
        assert(self.undo_stack@ =~= capped(
            old(self).undo_stack@,
            old(self).settings.undo_levels as int,
        ));
    }

    /// Keeps the text and the cursor for undo; there is nothing to redo then.
    pub fn push_undo(&mut self)
        ensures
            entry_views(final(self).undo_stack@) == capped(
                entry_views(old(self).undo_stack@).push(entry_of(old(self).buffer)),
                old(self).settings.undo_levels as int,
            ),
            final(self).redo_stack@.len() == 0,
            *final(self) == (Editor {
                undo_stack: final(self).undo_stack,
                redo_stack: final(self).redo_stack,
                ..*old(self)
            }),
    {
        let snap = self.snapshot();
        self.undo_stack.push(snap);
        assert(entry_views(self.undo_stack@) =~= entry_views(old(self).undo_stack@).push(
            entry_of(old(self).buffer),
        ));
        let ghost all = self.undo_stack@;
        self.cap_undo();
        assert(entry_views(self.undo_stack@) =~= capped(
            entry_views(all),
            old(self).settings.undo_levels as int,
        ));
        self.redo_stack.clear();
    }

    /// Drops the latest undo entry, and says whether there was one.
    pub fn pop_last_undo(&mut self) -> (b: bool)
        ensures
            b == (old(self).undo_stack@.len() > 0),
            final(self).undo_stack@ == if b {
                old(self).undo_stack@.drop_last()
            } else {
                old(self).undo_stack@
            },
            *final(self) == (Editor { undo_stack: final(self).undo_stack, ..*old(self) }),
    {
        match self.undo_stack.pop() {
            Some(e) => true,
            None => false,
        }
    }

    /// The number of undo entries.
    pub fn undo_stack_len(&self) -> (n: usize)
        ensures
            n == self.undo_stack@.len(),
    {
        self.undo_stack.len()
    }

    /// Goes back to the latest undo entry and keeps the text for redo. The
    /// cursor ends on a character, and the mode is normal mode.
    pub fn undo(&mut self)
        ensures
            undone(*old(self), *final(self)),
    {
        match self.undo_stack.pop() {
            Some((lines, cursor)) => {
                let current = self.snapshot();
                let ghost before = self.redo_stack@;
                self.redo_stack.push(current);
                assert(entry_views(self.redo_stack@) =~= entry_views(before).push(
                    entry_of(self.buffer),
                ));
                self.restore(lines, cursor);
            },
            None => {},
        }
        self.vim.force_normal();
        self.clamp_cursor_to_normal_mode();
    }

    /// Goes forward to the latest redo entry and keeps the text for undo. The
    /// mode is normal mode.
    pub fn redo(&mut self)
        ensures
            redone(*old(self), *final(self)),
    {
        match self.redo_stack.pop() {
            Some((lines, cursor)) => {
                let current = self.snapshot();
                let ghost before = self.undo_stack@;
                self.undo_stack.push(current);
                let ghost all = self.undo_stack@;
                assert(entry_views(all) =~= entry_views(before).push(entry_of(self.buffer)));
                self.cap_undo();
                assert(entry_views(self.undo_stack@) =~= capped(
                    entry_views(all),
                    old(self).settings.undo_levels as int,
                ));
                self.restore(lines, cursor);
            },
            None => {},
        }
        self.vim.force_normal();
    }

    /// Moves the cursor back onto the last character of its line, where it lies
    /// past it.
    pub fn clamp_cursor_to_normal_mode(&mut self)
        ensures
            final(self).buffer.at() == normal_cursor(old(self).buffer),
            rope::only_cursor_moved(old(self).buffer, final(self).buffer),
            *final(self) == (Editor { buffer: final(self).buffer, ..*old(self) }),
    {
        let cursor = motions::read_cursor(&self.buffer);
        let n: usize = text::char_count(motions::read_line(&self.buffer, cursor.row));
        let last: usize = if n == 0 {
            0
        } else {
            n - 1
        };
        if cursor.col > last {
            Cursor::set_cursor(&mut self.buffer, Pos { line: cursor.row as u32, col: last as u32 });
        }
    }
}

/// Where the cursor is once it was moved back onto the last character of its
/// line.
pub open spec fn normal_cursor(b: RopeBuffer) -> Pos {
    let last = motions::last_col(motions::line_at(b.rows(), b.at().line as int));
    if b.at().col > last {
        b.placed(buffer_impl::as_pos((b.at().line as int, last)))
    } else {
        b.at()
    }
}

/// Where undo leaves the cursor: at the place kept with the entry, moved into
/// the text and onto a character.
pub open spec fn undo_cursor<H: Host>(e: Editor<RopeBuffer, H>) -> Pos {
    if e.undo_stack@.len() == 0 {
        normal_cursor(e.buffer)
    } else {
        let entry = entry_view(e.undo_stack@.last());
        let lines = buffer::split_text(buffer::join_text(entry.0));
        let p = buffer_impl::as_pos((entry.1.0 as int, entry.1.1 as int));
        let at = buffer_impl::as_pos(buffer::clamp(lines, buffer_impl::as_place(p)));
        let last = motions::last_col(
            motions::line_at(buffer_impl::shown_rows(lines), at.line as int),
        );
        if at.col > last {
            buffer_impl::as_pos(
                buffer::clamp(
                    lines,
                    buffer_impl::as_place(buffer_impl::as_pos((at.line as int, last))),
                ),
            )
        } else {
            at
        }
    }
}

/// What an undo does: the text goes back to the latest entry of the undo
/// history, and what it was is the latest entry of the redo history. Without an
/// entry the text stays. The cursor ends on a character, in normal mode.
pub open spec fn undone<H: Host>(b: Editor<RopeBuffer, H>, a: Editor<RopeBuffer, H>) -> bool {
    let e = entry_view(b.undo_stack@.last());
    &&& if b.undo_stack@.len() == 0 {
        &&& a.undo_stack@ == b.undo_stack@
        &&& a.redo_stack@ == b.redo_stack@
        &&& rope::only_cursor_moved(b.buffer, a.buffer)
        &&& a.content_dirty == b.content_dirty
        &&& a.cached_content == b.cached_content
        &&& a.pending_content_edits == b.pending_content_edits
        &&& a.pending_content_reset == b.pending_content_reset
    } else {
        &&& rope::buffer_lines(a.buffer) == buffer::split_text(buffer::join_text(e.0))
        &&& rope::buffer_folds(a.buffer) == rope::buffer_folds(b.buffer)
        &&& rope::buffer_gen(a.buffer) == buffer::bumped(rope::buffer_gen(b.buffer))
        &&& a.undo_stack@ == b.undo_stack@.drop_last()
        &&& entry_views(a.redo_stack@) == entry_views(b.redo_stack@).push(entry_of(b.buffer))
        &&& a.content_dirty
        &&& a.cached_content is None
        &&& a.pending_content_edits@.len() == 0
        &&& a.pending_content_reset
    }
    &&& a.buffer.at() == undo_cursor(b)
    &&& a.vim == (VimState { mode: VimMode::Normal, ..b.vim })
    &&& a == (Editor {
        buffer: a.buffer,
        vim: a.vim,
        undo_stack: a.undo_stack,
        redo_stack: a.redo_stack,
        content_dirty: a.content_dirty,
        cached_content: a.cached_content,
        pending_content_edits: a.pending_content_edits,
        pending_content_reset: a.pending_content_reset,
        ..b
    })
}

/// What a redo does: the text and the cursor go to the latest entry of the redo
/// history, and what they were is the latest entry of the undo history. Without
/// an entry they stay. The mode is normal mode.
pub open spec fn redone<H: Host>(b: Editor<RopeBuffer, H>, a: Editor<RopeBuffer, H>) -> bool {
    let e = entry_view(b.redo_stack@.last());
    if b.redo_stack@.len() == 0 {
        &&& a.redo_stack@ == b.redo_stack@
        &&& a == (Editor {
            vim: VimState { mode: VimMode::Normal, ..b.vim },
            redo_stack: a.redo_stack,
            ..b
        })
    } else {
        &&& restored(b.buffer, a.buffer, e.0, e.1)
        &&& a.redo_stack@ == b.redo_stack@.drop_last()
        &&& entry_views(a.undo_stack@) == capped(
            entry_views(b.undo_stack@).push(entry_of(b.buffer)),
            b.settings.undo_levels as int,
        )
        &&& a.pending_content_edits@.len() == 0
        &&& a == (Editor {
            buffer: a.buffer,
            vim: VimState { mode: VimMode::Normal, ..b.vim },
            undo_stack: a.undo_stack,
            redo_stack: a.redo_stack,
            content_dirty: true,
            cached_content: None,
            pending_content_edits: a.pending_content_edits,
            pending_content_reset: true,
            ..b
        })
    }
}

// ── Edits ───────────────────────────────────────────────────────────

/// The rows from which folds are dropped after an edit: from the row of the
/// cursor before it to the row of the cursor after it.
pub open spec fn fold_op_after(before: Pos, after: Pos) -> FoldOp {
    FoldOp::Invalidate {
        start_row: text::min(before.line as int, after.line as int) as usize,
        end_row: text::max(before.line as int, after.line as int) as usize,
    }
}

/// The first row that goes where an edit `removes` rows, or the row behind which
/// rows come. A range of characters and a join leave their first row, with the
/// text behind them on it; a range of rows does not.
pub open spec fn shift_start(
    lines: Seq<Seq<char>>,
    e: edits::EditView,
    removes: bool,
) -> int {
    match e {
        edits::EditView::InsertStr { at, .. } => buffer::row_clamped(lines, at.0),
        edits::EditView::DeleteRange { start, end, kind } => text::min(start.0, end.0) + if kind
            == MotionKind::Char {
            1int
        } else {
            0int
        },
        edits::EditView::JoinLines { row, .. } => buffer::row_clamped(lines, row) + 1,
        edits::EditView::SplitLines { row, .. } => buffer::row_clamped(lines, row),
        edits::EditView::Replace { start, end, .. } => text::min(start.0, end.0) + if removes {
            1int
        } else {
            0int
        },
        edits::EditView::InsertBlock { at, .. } => at.0,
        edits::EditView::DeleteBlockChunks { at, .. } => at.0,
    }
}

/// How an edit moves the places behind it, from the lines before and after it.
pub open spec fn shift_after(
    lines: Seq<Seq<char>>,
    e: edits::EditView,
    after: Seq<Seq<char>>,
) -> RowShift {
    let removes = after.len() < lines.len();
    RowShift {
        start: shift_start(lines, e, removes) as usize,
        removed: removes,
        by: (if removes {
            lines.len() - after.len()
        } else {
            after.len() - lines.len()
        }) as usize,
    }
}

/// The row with which the places that an edit moves start.
fn first_shifted(rows: usize, edit: &Edit, removes: bool, Ghost(lines): Ghost<Seq<Seq<char>>>) -> (r:
    usize)
    requires
        rows == lines.len(),
        rows > 0,
        edits::applicable(lines, edits::edit_view(*edit)),
    ensures
        r == shift_start(lines, edits::edit_view(*edit), removes),
{
    match edit {
        Edit::InsertChar { at, .. } => least(at.row, rows - 1),
        Edit::InsertStr { at, .. } => least(at.row, rows - 1),
        Edit::DeleteRange { start, end, kind } => match kind {
            MotionKind::Char => least(start.row, end.row) + 1,
            MotionKind::Line => least(start.row, end.row),
            MotionKind::Block => least(start.row, end.row),
        },
        Edit::JoinLines { row, .. } => least(*row, rows - 1) + 1,
        Edit::SplitLines { row, .. } => least(*row, rows - 1),
        Edit::Replace { start, end, .. } => if removes {
            least(start.row, end.row) + 1
        } else {
            least(start.row, end.row)
        },
        Edit::InsertBlock { at, .. } => at.row,
        Edit::DeleteBlockChunks { at, .. } => at.row,
    }
}

/// The lesser of two rows.
fn least(a: usize, b: usize) -> (r: usize)
    ensures
        r == text::min(a as int, b as int),
{
    if a <= b {
        a
    } else {
        b
    }
}

/// What an edit does to the buffer: the text and the cursor are those of the
/// edit, the folds between the cursor's rows before and after it are gone, and
/// the generation moved on for the edit and for the folds.
pub open spec fn buffer_edited(b: RopeBuffer, a: RopeBuffer, edit: Edit) -> bool {
    let lines = rope::buffer_lines(b);
    let done = edits::applied(lines, edits::edit_view(edit));
    let cursor = buffer::clamp(done.0, done.1);
    let folds_after = folds::fold_op_applied(
        rope::buffer_folds(b),
        done.0.len() as int,
        fold_op_after(b.at(), buffer_impl::as_pos(cursor)),
    );
    &&& rope::buffer_lines(a) == done.0
    &&& rope::buffer_cursor(a) == cursor
    &&& rope::buffer_folds(a) == folds_after
    &&& rope::buffer_gen(a) == if folds_after == rope::buffer_folds(b) {
        buffer::bumped(rope::buffer_gen(b))
    } else {
        buffer::bumped(buffer::bumped(rope::buffer_gen(b)))
    }
}

/// What an edit does to the state of the key machine: the place of the cursor
/// is noted as the place of the edit, and the jump lists move with the rows.
pub open spec fn vim_edited(
    b: VimState,
    a: VimState,
    entry: (usize, usize),
    shift: RowShift,
) -> bool {
    &&& a == (VimState {
        last_edit_pos: Some(entry),
        change_list: a.change_list,
        change_list_cursor: None,
        jump_back: a.jump_back,
        jump_fwd: a.jump_fwd,
        ..b
    })
    &&& a.change_list@ == b.changes_with(entry)
    &&& a.jump_back@ == if shift.by == 0 {
        b.jump_back@
    } else {
        marks::shifted_places(b.jump_back@, shift)
    }
    &&& a.jump_fwd@ == if shift.by == 0 {
        b.jump_fwd@
    } else {
        marks::shifted_places(b.jump_fwd@, shift)
    }
}

/// What an edit does to the editor, and the edit that takes it back.
pub open spec fn mutated<H: Host>(
    b: Editor<RopeBuffer, H>,
    a: Editor<RopeBuffer, H>,
    edit: Edit,
    back: Edit,
) -> bool {
    let lines = rope::buffer_lines(b.buffer);
    let p = a.buffer.at();
    let shift = shift_after(lines, edits::edit_view(edit), rope::buffer_lines(a.buffer));
    if b.settings.readonly {
        &&& a == b
        &&& edits::edit_view(back) == (edits::EditView::InsertStr {
            at: motions::cursor_place(b.buffer),
            text: Seq::<char>::empty(),
        })
    } else {
        &&& edits::edit_view(back) == edits::inverse(lines, edits::edit_view(edit))
        &&& buffer_edited(b.buffer, a.buffer, edit)
        &&& content::op_views(a.change_log@) == content::op_views(b.change_log@)
            + content::edit_ops(edit)
        &&& a.pending_content_edits@ == b.pending_content_edits@ + content::content_edits(
            lines,
            edit,
        )
        &&& a.pending_fold_ops@ == b.pending_fold_ops@.push(fold_op_after(b.buffer.at(), p))
        &&& vim_edited(b.vim, a.vim, (p.line as usize, p.col as usize), shift)
        &&& a.marks@ == if shift.by == 0 {
            b.marks@
        } else {
            marks::shifted_marks(b.marks@, shift)
        }
        &&& a == (Editor {
            buffer: a.buffer,
            change_log: a.change_log,
            pending_content_edits: a.pending_content_edits,
            pending_fold_ops: a.pending_fold_ops,
            vim: a.vim,
            marks: a.marks,
            content_dirty: true,
            cached_content: None,
            ..b
        })
    }
}

impl<H: Host> Editor<RopeBuffer, H> {
    /// Moves the marks and the jump lists as an edit asks.
    fn shift_marks_after_edit(&mut self, shift: RowShift)
        ensures
            final(self).marks@ == marks::shifted_marks(old(self).marks@, shift),
            final(self).vim.jump_back@ == marks::shifted_places(old(self).vim.jump_back@, shift),
            final(self).vim.jump_fwd@ == marks::shifted_places(old(self).vim.jump_fwd@, shift),
            *final(self) == (Editor {
                marks: final(self).marks,
                vim: VimState {
                    jump_back: final(self).vim.jump_back,
                    jump_fwd: final(self).vim.jump_fwd,
                    ..old(self).vim
                },
                ..*old(self)
            }),
    {
        self.marks.shift(shift);
        marks::shift_places(&mut self.vim.jump_back, shift);
        marks::shift_places(&mut self.vim.jump_fwd, shift);
    }

    /// Applies an edit to the buffer and returns the one that takes it back.
    /// Everything that follows an edit follows here: the records for the host,
    /// the folds around it, the change list, the marks and the jump lists. A
    /// read-only editor changes nothing and returns an insertion of nothing.
    #[verifier::rlimit(40)]
    pub fn mutate_edit(&mut self, edit: Edit) -> (back: Edit)
        requires
            !old(self).settings.readonly ==> edits::applicable(
                rope::buffer_lines(old(self).buffer),
                edits::edit_view(edit),
            ),
        ensures
            mutated(*old(self), *final(self), edit, back),
    {
        if self.settings.readonly {
            let at = motions::read_cursor(&self.buffer);
            return Edit::InsertStr { at, text: String::new() };
        }
        let pre_row: usize = motions::read_cursor(&self.buffer).row;
        let pre_rows: usize = rope::rope_row_count(&self.buffer);
        let gone_from: usize = first_shifted(
            pre_rows,
            &edit,
            true,
            Ghost(rope::buffer_lines(self.buffer)),
        );
        let grown_from: usize = first_shifted(
            pre_rows,
            &edit,
            false,
            Ghost(rope::buffer_lines(self.buffer)),
        );
        let mut ops = content::edit_to_editops(&edit);
        let ghost new_ops = ops@;
        self.change_log.append(&mut ops);
        assert(content::op_views(self.change_log@) =~= content::op_views(old(self).change_log@)
            + content::op_views(new_ops));
        let mut records = content::content_edits_from_buffer_edit(&self.buffer, &edit);
        self.pending_content_edits.append(&mut records);
        let back = edits::apply_buffer_edit(&mut self.buffer, edit);
        let cursor = motions::read_cursor(&self.buffer);
        let lo: usize = if pre_row < cursor.row {
            pre_row
        } else {
            cursor.row
        };
        let hi: usize = if pre_row < cursor.row {
            cursor.row
        } else {
            pre_row
        };
        self.apply_fold_op(FoldOp::Invalidate { start_row: lo, end_row: hi });
        self.vim.record_change((cursor.row, cursor.col));
        let post_rows: usize = rope::rope_row_count(&self.buffer);
        if post_rows != pre_rows {
            let shift = if post_rows < pre_rows {
                RowShift { start: gone_from, removed: true, by: pre_rows - post_rows }
            } else {
                RowShift { start: grown_from, removed: false, by: post_rows - pre_rows }
            };
            self.shift_marks_after_edit(shift);
        }
        self.mark_content_dirty();
        back
    }

    /// The same as [`Editor::mutate_edit`] for an edit that may name rows that
    /// are not there: such an edit is refused, and nothing changes.
    pub fn try_mutate_edit(&mut self, edit: Edit) -> (r: Option<Edit>)
        ensures
            match r {
                Some(back) => mutated(*old(self), *final(self), edit, back),
                None => *final(self) == *old(self),
            },
            r is None <==> !old(self).settings.readonly && !edits::within(
                rope::buffer_lines(old(self).buffer),
                edits::edit_view(edit),
            ),
    {
        if !self.settings.readonly && !edits::can_apply(&self.buffer, &edit) {
            return None;
        }
        Some(self.mutate_edit(edit))
    }

    /// Keeps for the host that `t` takes the place of what lies between two
    /// positions.
    fn log_replacement(&mut self, start: Pos, end: Pos, t: &str)
        ensures
            content::op_views(final(self).change_log@) == content::op_views(
                old(self).change_log@,
            ).push((start, end, t@)),
            final(self).pending_content_edits@ == old(self).pending_content_edits@.push(
                content::replacing(
                    rope::buffer_lines(old(self).buffer),
                    buffer_impl::as_place(start),
                    buffer_impl::as_place(end),
                    t@,
                ),
            ),
            *final(self) == (Editor {
                change_log: final(self).change_log,
                pending_content_edits: final(self).pending_content_edits,
                ..*old(self)
            }),
    {
        let record = content::replace_record(
            &self.buffer,
            buffer_impl::pos_to_position(start),
            buffer_impl::pos_to_position(end),
            t,
        );
        self.pending_content_edits.push(record);
        self.change_log.push(EditOp { range: start..end, replacement: t.to_string() });
        assert(content::op_views(self.change_log@) =~= content::op_views(
            old(self).change_log@,
        ).push((start, end, t@)));
    }

    /// Inserts text at the cursor, unless edits are refused, and keeps for the
    /// host what changed. The undo history, the marks and the folds are left
    /// alone.
    pub fn insert_str(&mut self, t: &str)
        ensures
            typed_in(*old(self), *final(self), t@),
    {
        if self.settings.readonly {
            return;
        }
        let pos = Cursor::cursor(&self.buffer);
        self.log_replacement(pos, pos, t);
        BufferEdit::insert_at(&mut self.buffer, pos, t);
        self.mark_content_dirty();
    }

    /// Puts a completion in place of the word before the cursor, unless edits are
    /// refused, and keeps for the host what changed: the word that goes, where
    /// there is one, and then the completion.
    pub fn accept_completion(&mut self, completion: &str)
        ensures
            completed(*old(self), *final(self), completion@),
    {
        if self.settings.readonly {
            return;
        }
        let cursor = motions::read_cursor(&self.buffer);
        let v = text::chars_of(motions::read_line(&self.buffer, cursor.row));
        let stop: usize = if cursor.col < v.len() {
            cursor.col
        } else {
            v.len()
        };
        let ghost line = v@;
        let mut n: usize = 0;
        while n < stop && (v[stop - n - 1] == '_' || text::is_alphanumeric(v[stop - n - 1]))
            invariant
                v@ == line,
                n <= stop <= v.len(),
                word_before(line, stop as int) == n + word_before(line, stop - n),
            decreases stop - n,
        {
            n = n + 1;
        }
        let pos = Cursor::cursor(&self.buffer);
        let ghost lines = rope::buffer_lines(self.buffer);
        // A column past the end of the line leaves nothing to take out.
        if n > 0 && cursor.col - n < v.len() {
            let start = Pos { line: pos.line, col: (cursor.col - n) as u32 };
            proof {
                reveal_strlit("");
                assert(""@ =~= Seq::<char>::empty());
            }
            self.log_replacement(start, pos, "");
            BufferEdit::delete_range(&mut self.buffer, start..pos);
            assert(rope::buffer_lines(self.buffer)[pos.line as int].len() < lines[pos.line
                as int].len());
        }
        let at = Cursor::cursor(&self.buffer);
        self.log_replacement(at, at, completion);
        BufferEdit::insert_at(&mut self.buffer, at, completion);
        self.mark_content_dirty();
    }
}

/// How many characters before column `col` are letters, digits or underscores
/// without a gap; a column past the end stands for the end.
pub open spec fn word_before(line: Seq<char>, col: int) -> int
    decreases col,
{
    if col > line.len() {
        word_before(line, line.len() as int)
    } else if col <= 0 || !(line[col - 1] == '_' || text::alphanumeric(line[col - 1])) {
        0
    } else {
        1 + word_before(line, col - 1)
    }
}

/// What typing a text in at the cursor does: nothing where edits are refused.
pub open spec fn typed_in<H: Host>(
    b: Editor<RopeBuffer, H>,
    a: Editor<RopeBuffer, H>,
    t: Seq<char>,
) -> bool {
    if b.settings.readonly {
        a == b
    } else {
        let lines = rope::buffer_lines(b.buffer);
        let p = b.buffer.at();
        let at = buffer_impl::as_place(p);
        let done = buffer::insertion(lines, at, t);
        &&& rope::edited(b.buffer, a.buffer, done.0, done.2)
        &&& content::op_views(a.change_log@) == content::op_views(
            b.change_log@,
        ).push((p, p, t))
        &&& a.pending_content_edits@ == b.pending_content_edits@.push(
            content::replacing(lines, at, at, t),
        )
        &&& a == (Editor {
            buffer: a.buffer,
            change_log: a.change_log,
            pending_content_edits: a.pending_content_edits,
            content_dirty: true,
            cached_content: None,
            ..b
        })
    }
}

/// What accepting a completion does: nothing where edits are refused.
pub open spec fn completed<H: Host>(
    b: Editor<RopeBuffer, H>,
    a: Editor<RopeBuffer, H>,
    t: Seq<char>,
) -> bool {
    if b.settings.readonly {
        a == b
    } else {
        let none = Seq::<char>::empty();
        let lines = rope::buffer_lines(b.buffer);
        let p = b.buffer.at();
        let at = buffer_impl::as_place(p);
        let n = word_before(
            motions::line_at(b.buffer.rows(), p.line as int),
            p.col as int,
        );
        let start = (p.line as int, p.col - n);
        let rest = if n > 0 {
            buffer_impl::range_deleted(lines, start, at)
        } else {
            lines
        };
        let q = if rest == lines {
            p
        } else {
            buffer_impl::as_pos(buffer::clamp(rest, buffer::clamp(lines, start)))
        };
        let to = buffer_impl::as_place(q);
        let done = buffer::insertion(rest, to, t);
        let log = content::op_views(b.change_log@);
        let records = b.pending_content_edits@;
        &&& rope::buffer_lines(a.buffer) == done.0
        &&& rope::buffer_cursor(a.buffer) == buffer::clamp(done.0, done.2)
        &&& rope::buffer_folds(a.buffer) == rope::buffer_folds(b.buffer)
        &&& rope::buffer_gen(a.buffer) == if rest == lines {
            buffer::bumped(rope::buffer_gen(b.buffer))
        } else {
            buffer::bumped(buffer::bumped(rope::buffer_gen(b.buffer)))
        }
        &&& content::op_views(a.change_log@) == (if rest == lines {
            log
        } else {
            log.push((buffer_impl::as_pos(start), p, none))
        }).push((q, q, t))
        &&& a.pending_content_edits@ == (if rest == lines {
            records
        } else {
            records.push(content::replacing(lines, start, at, none))
        }).push(content::replacing(rest, to, to, t))
        &&& a == (Editor {
            buffer: a.buffer,
            change_log: a.change_log,
            pending_content_edits: a.pending_content_edits,
            content_dirty: true,
            cached_content: None,
            ..b
        })
    }
}

// ── Laws ────────────────────────────────────────────────────────────

/// A new text reads back as it was given, with the line break of its last
/// line.
pub proof fn law_new_text_reads_back(b: RopeBuffer, t: Seq<char>)
    requires
        rope::buffer_lines(b) == buffer::split_text(t),
        rope::buffer_lines(b).len() <= u32::MAX,
    ensures
        content_of(b) == t.push('\n'),
{
    let lines = rope::buffer_lines(b);
    assert(b.rows() =~= lines);
    edits::lemma_split_clean(t);
    edits::lemma_join_split(t);
    buffer::lemma_join_terminated(lines.drop_last(), lines.last());
    assert(lines.drop_last().push(lines.last()) =~= lines);
    assert(content_of(b) =~= t.push('\n'));
}

/// Going back to the entry that a buffer left in the undo history, or in the
/// redo history, brings back its text and its cursor: what was undone comes
/// back with a redo, and what was done goes away with an undo.
pub proof fn law_entry_brings_back(kept: RopeBuffer, b: RopeBuffer, a: RopeBuffer)
    requires
        restored(b, a, entry_of(kept).0, entry_of(kept).1),
        edits::clean(rope::buffer_lines(kept)),
        rope::buffer_lines(kept).len() <= u32::MAX,
        buffer::in_text(rope::buffer_lines(kept), rope::buffer_cursor(kept)),
        rope::buffer_cursor(kept).1 <= u32::MAX,
    ensures
        rope::buffer_lines(a) == rope::buffer_lines(kept),
        rope::buffer_cursor(a) == rope::buffer_cursor(kept),
{
    let lines = rope::buffer_lines(kept);
    assert(kept.rows() =~= lines);
    edits::lemma_split_join(lines);
}

/// Whatever was done since an undo step was pushed, an undo brings back the text
/// as it was then, and a redo after it brings back the text and the cursor as
/// they were before the undo. The redo history is then what it was, and so is
/// the length of the undo history.
pub proof fn law_undo_then_redo<H: Host>(
    first: Editor<RopeBuffer, H>,
    pushed: Editor<RopeBuffer, H>,
    later: Editor<RopeBuffer, H>,
    back: Editor<RopeBuffer, H>,
    forth: Editor<RopeBuffer, H>,
)
    requires
        entry_views(pushed.undo_stack@) == capped(
            entry_views(first.undo_stack@).push(entry_of(first.buffer)),
            first.settings.undo_levels as int,
        ),
        later.undo_stack@ == pushed.undo_stack@,
        later.settings.undo_levels == first.settings.undo_levels,
        undone(later, back),
        redone(back, forth),
        edits::clean(rope::buffer_lines(first.buffer)),
        edits::clean(rope::buffer_lines(later.buffer)),
        rope::buffer_lines(first.buffer).len() <= u32::MAX,
        rope::buffer_lines(later.buffer).len() <= u32::MAX,
        buffer::in_text(rope::buffer_lines(later.buffer), rope::buffer_cursor(later.buffer)),
        rope::buffer_cursor(later.buffer).1 <= u32::MAX,
    ensures
        rope::buffer_lines(back.buffer) == rope::buffer_lines(first.buffer),
        rope::buffer_lines(forth.buffer) == rope::buffer_lines(later.buffer),
        rope::buffer_cursor(forth.buffer) == rope::buffer_cursor(later.buffer),
        entry_views(forth.redo_stack@) == entry_views(later.redo_stack@),
        forth.undo_stack@.len() == later.undo_stack@.len(),
{
    let entries = entry_views(later.undo_stack@);
    assert(entries.last() == entry_of(first.buffer));
    assert(entries.len() == later.undo_stack@.len());
    let lines = rope::buffer_lines(first.buffer);
    assert(first.buffer.rows() =~= lines);
    edits::lemma_split_join(lines);
    assert(entry_views(back.redo_stack@).len() == back.redo_stack@.len());
    assert(entry_views(back.redo_stack@).last() == entry_of(later.buffer));
    law_entry_brings_back(later.buffer, back.buffer, forth.buffer);
    assert(entry_views(forth.redo_stack@) =~= entry_views(back.redo_stack@).drop_last());
    assert(entry_views(back.redo_stack@).drop_last() =~= entry_views(later.redo_stack@));
    assert(entry_views(back.undo_stack@).len() == back.undo_stack@.len());
    assert(entry_views(forth.undo_stack@).len() == forth.undo_stack@.len());
}

/// A mark on another row than the one text is inserted on stays with its line,
/// whatever rows the text adds.
pub proof fn law_marks_follow_insertion(
    lines: Seq<Seq<char>>,
    at: (int, int),
    t: Seq<char>,
    row: usize,
)
    requires
        0 <= at.0 < lines.len(),
        0 <= at.1,
        row < lines.len(),
        row != at.0,
        edits::applied(lines, edits::EditView::InsertStr { at, text: t }).0.len() <= usize::MAX,
    ensures
        ({
            let e = edits::EditView::InsertStr { at, text: t };
            let after = edits::applied(lines, e).0;
            let shift = shift_after(lines, e, after);
            &&& shift.row(row) is Some
            &&& (shift.row(row)->0) < after.len()
            &&& after[(shift.row(row)->0) as int] == lines[row as int]
        }),
{
    let place = buffer::clamp(lines, at);
    let line = lines[place.0];
    let col = text::min(place.1, line.len() as int);
    edits::lemma_split_clean(line.take(col) + t + line.skip(col));
}

/// A mark on a row that a linewise deletion leaves stays with its line, and a
/// mark on a row that goes is dropped.
pub proof fn law_marks_follow_deletion(
    lines: Seq<Seq<char>>,
    start: (int, int),
    end: (int, int),
    row: usize,
)
    requires
        0 <= start.0 <= end.0 < lines.len(),
        end.0 - start.0 + 1 < lines.len(),
        lines.len() <= usize::MAX,
        row < lines.len(),
    ensures
        ({
            let e = edits::EditView::DeleteRange { start, end, kind: buffer::MotionKind::Line };
            let after = edits::applied(lines, e).0;
            let shift = shift_after(lines, e, after);
            if start.0 <= row <= end.0 {
                shift.row(row) is None
            } else {
                &&& shift.row(row) is Some
                &&& (shift.row(row)->0) < after.len()
                &&& after[(shift.row(row)->0) as int] == lines[row as int]
            }
        }),
{
}

/// A mark on a row that a deletion of characters leaves stays with its line, the
/// one on the first row of the range among them, and a mark on a row whose line
/// goes into that row is dropped.
pub proof fn law_marks_follow_cut(
    lines: Seq<Seq<char>>,
    start: (int, int),
    end: (int, int),
    row: usize,
)
    requires
        0 <= start.0 <= end.0 < lines.len(),
        buffer::at_or_before(start, end),
        lines.len() <= usize::MAX,
        row < lines.len(),
    ensures
        ({
            let e = edits::EditView::DeleteRange { start, end, kind: MotionKind::Char };
            let after = edits::applied(lines, e).0;
            let shift = shift_after(lines, e, after);
            if start.0 < row <= end.0 {
                shift.row(row) is None
            } else {
                &&& shift.row(row) is Some
                &&& (shift.row(row)->0) < after.len()
                &&& row == start.0 ==> shift.row(row) == Some(row)
                &&& row != start.0 ==> after[(shift.row(row)->0) as int] == lines[row as int]
            }
        }),
{
}

/// A mark on a row that a join leaves stays with its line, the one that the
/// others are joined to among them, and a mark on a row that is joined to it is
/// dropped.
pub proof fn law_marks_follow_join(
    lines: Seq<Seq<char>>,
    first: int,
    count: int,
    with_space: bool,
    row: usize,
)
    requires
        0 <= first < lines.len(),
        1 <= count < lines.len() - first,
        lines.len() <= usize::MAX,
        row < lines.len(),
    ensures
        ({
            let e = edits::EditView::JoinLines { row: first, count, with_space };
            let after = edits::applied(lines, e).0;
            let shift = shift_after(lines, e, after);
            if first < row <= first + count {
                shift.row(row) is None
            } else {
                &&& shift.row(row) is Some
                &&& (shift.row(row)->0) < after.len()
                &&& row == first ==> shift.row(row) == Some(row)
                &&& row != first ==> after[(shift.row(row)->0) as int] == lines[row as int]
            }
        }),
{
}

/// A mark on a row outside a replaced range stays with its line.
pub proof fn law_marks_follow_replacement(
    lines: Seq<Seq<char>>,
    start: (int, int),
    end: (int, int),
    with: Seq<char>,
    row: usize,
)
    requires
        0 <= start.0 <= end.0 < lines.len(),
        buffer::at_or_before(start, end),
        0 <= start.1,
        row < lines.len(),
        row < start.0 || row > end.0,
        edits::applied(lines, edits::EditView::Replace { start, end, with }).0.len() <= usize::MAX,
        lines.len() <= usize::MAX,
    ensures
        ({
            let e = edits::EditView::Replace { start, end, with };
            let after = edits::applied(lines, e).0;
            let shift = shift_after(lines, e, after);
            &&& shift.row(row) is Some
            &&& (shift.row(row)->0) < after.len()
            &&& after[(shift.row(row)->0) as int] == lines[row as int]
        }),
{
    let rest = buffer::cut(lines, start, end);
    let place = buffer::clamp(rest, start);
    let line = rest[place.0];
    let col = text::min(place.1, line.len() as int);
    edits::lemma_split_clean(line.take(col) + with + line.skip(col));
}

/// The history never grows longer than the settings allow, and it keeps the
/// latest entries.
pub proof fn law_history_is_capped<A>(s: Seq<A>, e: A, cap: int)
    requires
        cap > 0,
    ensures
        capped(s.push(e), cap).len() <= cap,
        capped(s.push(e), cap).len() > 0,
        capped(s.push(e), cap).last() == e,
{
}

} // verus!
