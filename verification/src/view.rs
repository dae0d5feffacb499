//! What a host reads to draw and to save an editor: selections, highlights,
//! frames and snapshots.
use std::ops::Range;

use hjkl_buffer::Buffer as RopeBuffer;
use vstd::prelude::*;

use crate::buffer;
use crate::buffer::{Position, Selection, Viewport};
use crate::buffer_impl;
use crate::content;
use crate::editing;
use crate::editor::Editor;
use crate::edits;
use crate::marks;
use crate::marks::Marks;
use crate::motions;
use crate::pattern;
use crate::rope;
use crate::scrolling;
use crate::search;
use crate::surface::{Cursor, Query};
use crate::text;
use crate::types::{
    CursorShape, EditorSnapshot, EngineError, Highlight, HighlightKind, Host, Pos, RenderFrame,
    SnapshotMode,
};
use crate::VimMode;

verus! {

// ── Model ───────────────────────────────────────────────────────────

/// Two places in order.
pub open spec fn ordered(a: (usize, usize), b: (usize, usize)) -> (
    (usize, usize),
    (usize, usize),
) {
    if a.0 < b.0 || (a.0 == b.0 && a.1 <= b.1) {
        (a, b)
    } else {
        (b, a)
    }
}

/// The smaller and the larger of two numbers.
pub open spec fn sorted(a: usize, b: usize) -> (usize, usize) {
    if a <= b {
        (a, b)
    } else {
        (b, a)
    }
}

/// Where the cursor of a buffer is, as row and column.
pub open spec fn spot_of(b: RopeBuffer) -> (usize, usize) {
    (b.at().line as usize, b.at().col as usize)
}

/// The selection of an editor; `None` outside the visual modes.
pub open spec fn selection_of<H: Host>(e: Editor<RopeBuffer, H>) -> Option<Selection> {
    let c = spot_of(e.buffer);
    match e.vim.mode {
        VimMode::Visual => Some(
            Selection::Char {
                anchor: Position { row: e.vim.visual_anchor.0, col: e.vim.visual_anchor.1 },
                head: Position { row: c.0, col: c.1 },
            },
        ),
        VimMode::VisualLine => Some(
            Selection::Line { anchor_row: e.vim.visual_line_anchor, head_row: c.0 },
        ),
        VimMode::VisualBlock => Some(
            Selection::Block {
                anchor: Position { row: e.vim.block_anchor.0, col: e.vim.block_anchor.1 },
                head: Position { row: c.0, col: e.vim.block_vcol },
            },
        ),
        _ => None,
    }
}

/// The first and the last place of a selection. Lines count as a whole, and a
/// block from its upper left to its lower right corner.
pub open spec fn selection_bounds(rows: Seq<Seq<char>>, s: Selection) -> (
    (usize, usize),
    (usize, usize),
) {
    match s {
        Selection::Char { anchor, head } => ordered(
            (anchor.row, anchor.col),
            (head.row, head.col),
        ),
        Selection::Line { anchor_row, head_row } => {
            let (top, bottom) = sorted(anchor_row, head_row);
            ((top, 0), (bottom, motions::line_at(rows, bottom as int).len() as usize))
        },
        Selection::Block { anchor, head } => {
            let (top, bottom) = sorted(anchor.row, head.row);
            let (left, right) = sorted(anchor.col, head.col);
            ((top, left), (bottom, right))
        },
    }
}

/// First and last place of a charwise selection; `None` in other modes.
pub open spec fn chars_selected<H: Host>(e: Editor<RopeBuffer, H>) -> Option<
    ((usize, usize), (usize, usize)),
> {
    if e.vim.mode is Visual {
        Some(ordered(e.vim.visual_anchor, spot_of(e.buffer)))
    } else {
        None
    }
}

/// First and last row of a linewise selection; `None` in other modes.
pub open spec fn lines_selected<H: Host>(e: Editor<RopeBuffer, H>) -> Option<(usize, usize)> {
    if e.vim.mode is VisualLine {
        Some(sorted(e.vim.visual_line_anchor, spot_of(e.buffer).0))
    } else {
        None
    }
}

/// First row, last row, first column and last column of a block selection; `None`
/// in other modes.
pub open spec fn block_selected<H: Host>(e: Editor<RopeBuffer, H>) -> Option<
    (usize, usize, usize, usize),
> {
    if e.vim.mode is VisualBlock {
        let rows = sorted(e.vim.block_anchor.0, spot_of(e.buffer).0);
        let cols = sorted(e.vim.block_anchor.1, e.vim.block_vcol);
        Some((rows.0, rows.1, cols.0, cols.1))
    } else {
        None
    }
}

/// A highlight from one place to another.
pub open spec fn highlight_of(
    bounds: ((usize, usize), (usize, usize)),
    kind: HighlightKind,
) -> Highlight {
    Highlight {
        range: Range {
            start: Pos { line: (bounds.0).0 as u32, col: (bounds.0).1 as u32 },
            end: Pos { line: (bounds.1).0 as u32, col: (bounds.1).1 as u32 },
        },
        kind,
    }
}

/// The highlight of the selection; `None` outside the visual modes.
pub open spec fn selection_shown<H: Host>(e: Editor<RopeBuffer, H>) -> Option<Highlight> {
    match selection_of(e) {
        Some(s) => Some(
            highlight_of(selection_bounds(e.buffer.rows(), s), HighlightKind::Selection),
        ),
        None => None,
    }
}

/// The highlights of matches on a row. The matches are byte ranges of `line`;
/// the columns of a highlight count characters.
pub open spec fn highlights_of(
    line: Seq<char>,
    matches: Seq<(usize, usize)>,
    row: u32,
    kind: HighlightKind,
) -> Seq<Highlight> {
    Seq::new(
        matches.len(),
        |i: int|
            Highlight {
                range: Range {
                    start: Pos {
                        line: row,
                        col: text::col_at_byte(line, matches[i].0 as int) as u32,
                    },
                    end: Pos { line: row, col: text::col_at_byte(line, matches[i].1 as int) as u32 },
                },
                kind,
            },
    )
}

/// The highlights of a row: of the pattern being typed while the prompt is
/// open, and else of the active pattern.
pub open spec fn row_highlights<H: Host>(e: Editor<RopeBuffer, H>, row: u32) -> Seq<Highlight> {
    let line = e.buffer.rows()[row as int];
    if row >= e.buffer.rows().len() {
        Seq::<Highlight>::empty()
    } else {
        match e.vim.search_prompt {
            Some(p) => match pattern::compiled(p.text@) {
                Ok(re) => if p.text@.len() == 0 {
                    Seq::<Highlight>::empty()
                } else {
                    highlights_of(
                        line,
                        pattern::matches_in(re, line),
                        row,
                        HighlightKind::IncSearch,
                    )
                },
                Err(_) => Seq::<Highlight>::empty(),
            },
            None => match e.search_state.pattern {
                Some(re) => highlights_of(
                    line,
                    pattern::matches_in(re, line),
                    row,
                    HighlightKind::SearchMatch,
                ),
                None => Seq::<Highlight>::empty(),
            },
        }
    }
}

/// The summary of a mode.
pub open spec fn mode_summary(m: VimMode) -> SnapshotMode {
    match m {
        VimMode::Normal => SnapshotMode::Normal,
        VimMode::Insert => SnapshotMode::Insert,
        VimMode::Visual => SnapshotMode::Visual,
        VimMode::VisualLine => SnapshotMode::VisualLine,
        VimMode::VisualBlock => SnapshotMode::VisualBlock,
    }
}

/// What a host draws of an editor.
pub open spec fn frame_of<H: Host>(e: Editor<RopeBuffer, H>) -> RenderFrame {
    RenderFrame {
        mode: mode_summary(e.vim.mode),
        cursor_row: e.buffer.at().line,
        cursor_col: e.buffer.at().col,
        cursor_shape: Editor::<RopeBuffer, H>::shape_of(e.vim.mode),
        viewport_top: e.host.port().top_row as u32,
        line_count: e.buffer.rows().len() as u32,
    }
}

/// Marks with their places cut down to 32 bits.
pub open spec fn narrow(s: Seq<(char, (usize, usize))>) -> Seq<(char, (u32, u32))> {
    Seq::new(s.len(), |i: int| (s[i].0, ((s[i].1).0 as u32, (s[i].1).1 as u32)))
}

/// Marks with their places as row and column numbers.
pub open spec fn wide(s: Seq<(char, (u32, u32))>) -> Seq<(char, (usize, usize))> {
    Seq::new(s.len(), |i: int| (s[i].0, ((s[i].1).0 as usize, (s[i].1).1 as usize)))
}

/// The cursor of a buffer as a snapshot has it: its row, and the byte of that row
/// at which it stands.
pub open spec fn byte_cursor(b: RopeBuffer) -> (u32, u32) {
    let line = motions::line_at(b.rows(), b.at().line as int);
    (b.at().line, content::col_byte(line, b.at().col as int) as u32)
}

/// The place that the cursor of a snapshot stands for in a text: the character
/// that holds its byte. A row past the last is the last.
pub open spec fn place_of_bytes(lines: Seq<Seq<char>>, at: (u32, u32)) -> (int, int) {
    let row = buffer::row_clamped(lines, at.0 as int);
    (row, text::col_at_byte(lines[row], at.1 as int))
}

/// A snapshot shows what an editor holds.
pub open spec fn shows<H: Host>(s: EditorSnapshot, e: Editor<RopeBuffer, H>) -> bool {
    &&& s.version == EditorSnapshot::VERSION
    &&& s.mode == mode_summary(e.vim.mode)
    &&& s.cursor == byte_cursor(e.buffer)
    &&& buffer::texts(s.lines@) == e.buffer.rows()
    &&& s.viewport_top == e.host.port().top_row as u32
    &&& s.registers.same(&e.registers)
    &&& s.file_marks@ == narrow(e.marks.list())
}

/// An editor was brought to what a snapshot shows: text, cursor, viewport top,
/// registers and marks. The undo history is gone; the mode is left as it was.
pub open spec fn brought_to<H: Host>(
    b: Editor<RopeBuffer, H>,
    a: Editor<RopeBuffer, H>,
    s: EditorSnapshot,
) -> bool {
    let now = buffer::split_text(buffer::join_text(buffer::texts(s.lines@)));
    &&& rope::buffer_lines(a.buffer) == now
    &&& rope::buffer_cursor(a.buffer) == place_of_bytes(now, s.cursor)
    &&& rope::buffer_folds(a.buffer) == rope::buffer_folds(b.buffer)
    &&& rope::buffer_gen(a.buffer) == buffer::bumped(rope::buffer_gen(b.buffer))
    &&& scrolling::host_shows(
        b.host,
        a.host,
        Viewport { top_row: s.viewport_top as usize, ..b.host.port() },
    )
    &&& a.registers == s.registers
    &&& a.marks@ == marks::marks_map(wide(s.file_marks@))
    &&& a.undo_stack@.len() == 0
    &&& a.redo_stack@.len() == 0
    &&& a.pending_content_edits@.len() == 0
    &&& a == (Editor {
        buffer: a.buffer,
        host: a.host,
        registers: a.registers,
        marks: a.marks,
        undo_stack: a.undo_stack,
        redo_stack: a.redo_stack,
        pending_content_edits: a.pending_content_edits,
        pending_content_reset: true,
        content_dirty: true,
        cached_content: None,
        ..b
    })
}

// ── Helpers ─────────────────────────────────────────────────────────

fn sort_two(a: usize, b: usize) -> (r: (usize, usize))
    ensures
        r == sorted(a, b),
{
    if a <= b {
        (a, b)
    } else {
        (b, a)
    }
}

fn order_places(a: (usize, usize), b: (usize, usize)) -> (r: ((usize, usize), (usize, usize)))
    ensures
        r == ordered(a, b),
{
    if a.0 < b.0 || (a.0 == b.0 && a.1 <= b.1) {
        (a, b)
    } else {
        (b, a)
    }
}

/// The highlights of matches on a row; the matches are byte ranges of `line`.
pub fn match_highlights(
    line: &str,
    matches: &Vec<(usize, usize)>,
    row: u32,
    kind: HighlightKind,
) -> (v: Vec<Highlight>)
    ensures
        v@ == highlights_of(line@, matches@, row, kind),
{
    let mut v: Vec<Highlight> = Vec::new();
    let mut i: usize = 0;
    let ghost goal = highlights_of(line@, matches@, row, kind);
    while i < matches.len()
        invariant
            i <= matches.len(),
            goal == highlights_of(line@, matches@, row, kind),
            v@ == goal.take(i as int),
        decreases matches.len() - i,
    {
        let m = matches[i];
        let start: u32 = text::byte_to_col(line, m.0) as u32;
        let end: u32 = text::byte_to_col(line, m.1) as u32;
        v.push(
            Highlight {
                range: Range {
                    start: Pos { line: row, col: start },
                    end: Pos { line: row, col: end },
                },
                kind,
            },
        );
        i = i + 1;
        assert(goal.take(i as int) =~= goal.take(i - 1).push(goal[i - 1]));
    }
    assert(goal.take(i as int) =~= goal);
    v
}

fn summarize(m: VimMode) -> (s: SnapshotMode)
    ensures
        s == mode_summary(m),
{
    match m {
        VimMode::Normal => SnapshotMode::Normal,
        VimMode::Insert => SnapshotMode::Insert,
        VimMode::Visual => SnapshotMode::Visual,
        VimMode::VisualLine => SnapshotMode::VisualLine,
        VimMode::VisualBlock => SnapshotMode::VisualBlock,
    }
}

fn narrow_marks(v: &Vec<(char, (usize, usize))>) -> (r: Vec<(char, (u32, u32))>)
    ensures
        r@ == narrow(v@),
{
    let mut r: Vec<(char, (u32, u32))> = Vec::new();
    let mut i: usize = 0;
    while i < v.len()
        invariant
            i <= v.len(),
            r@ == narrow(v@).take(i as int),
        decreases v.len() - i,
    {
        let (c, (row, col)) = v[i];
        r.push((c, (row as u32, col as u32)));
        i = i + 1;
        assert(narrow(v@).take(i as int) =~= narrow(v@).take(i - 1).push(narrow(v@)[i - 1]));
    }
    assert(narrow(v@).take(i as int) =~= narrow(v@));
    r
}

fn marks_from(v: &Vec<(char, (u32, u32))>) -> (m: Marks)
    ensures
        m@ == marks::marks_map(wide(v@)),
{
    let mut m = Marks::new();
    let mut i: usize = 0;
    while i < v.len()
        invariant
            i <= v.len(),
            m@ == marks::marks_map(wide(v@).take(i as int)),
        decreases v.len() - i,
    {
        let (c, (row, col)) = v[i];
        m.set(c, (row as usize, col as usize));
        i = i + 1;
        assert(wide(v@).take(i as int).drop_last() =~= wide(v@).take(i - 1));
    }
    assert(wide(v@).take(i as int) =~= wide(v@));
    m
}

impl<H: Host> Editor<RopeBuffer, H> {
    // ── Selections ──────────────────────────────────────────────────

    /// First and last place of a charwise selection, both inclusive.
    pub fn char_highlight(&self) -> (r: Option<((usize, usize), (usize, usize))>)
        ensures
            r == chars_selected(*self),
    {
        if !matches!(self.vim.mode, VimMode::Visual) {
            return None;
        }
        Some(order_places(self.vim.visual_anchor, self.cursor()))
    }

    /// First and last row of a linewise selection.
    pub fn line_highlight(&self) -> (r: Option<(usize, usize)>)
        ensures
            r == lines_selected(*self),
    {
        if !matches!(self.vim.mode, VimMode::VisualLine) {
            return None;
        }
        Some(sort_two(self.vim.visual_line_anchor, self.cursor().0))
    }

    /// First row, last row, first column and last column of a block selection.
    pub fn block_highlight(&self) -> (r: Option<(usize, usize, usize, usize)>)
        ensures
            r == block_selected(*self),
    {
        if !matches!(self.vim.mode, VimMode::VisualBlock) {
            return None;
        }
        let (top, bottom) = sort_two(self.vim.block_anchor.0, self.cursor().0);
        let (left, right) = sort_two(self.vim.block_anchor.1, self.vim.block_vcol);
        Some((top, bottom, left, right))
    }

    /// The selection; `None` outside the visual modes.
    pub fn buffer_selection(&self) -> (r: Option<Selection>)
        ensures
            r == selection_of(*self),
    {
        let (row, col) = self.cursor();
        match self.vim.mode {
            VimMode::Visual => {
                let (ar, ac) = self.vim.visual_anchor;
                Some(
                    Selection::Char { anchor: Position::new(ar, ac), head: Position::new(row, col) },
                )
            },
            VimMode::VisualLine => Some(
                Selection::Line { anchor_row: self.vim.visual_line_anchor, head_row: row },
            ),
            VimMode::VisualBlock => {
                let (ar, ac) = self.vim.block_anchor;
                Some(
                    Selection::Block {
                        anchor: Position::new(ar, ac),
                        head: Position::new(row, self.vim.block_vcol),
                    },
                )
            },
            _ => None,
        }
    }

    /// The selection as a highlight from its first to its last place; `None`
    /// outside the visual modes.
    pub fn selection_highlight(&self) -> (r: Option<Highlight>)
        ensures
            r == selection_shown(*self),
    {
        let sel = match self.buffer_selection() {
            Some(s) => s,
            None => {
                return None;
            },
        };
        let (start, end) = match sel {
            Selection::Char { anchor, head } => order_places(
                (anchor.row, anchor.col),
                (head.row, head.col),
            ),
            Selection::Line { anchor_row, head_row } => {
                let (top, bottom) = sort_two(anchor_row, head_row);
                let len: usize = text::char_count(motions::read_line(&self.buffer, bottom));
                ((top, 0), (bottom, len))
            },
            Selection::Block { anchor, head } => {
                let (top, bottom) = sort_two(anchor.row, head.row);
                let (left, right) = sort_two(anchor.col, head.col);
                ((top, left), (bottom, right))
            },
        };
        Some(
            Highlight {
                range: Range {
                    start: Pos { line: start.0 as u32, col: start.1 as u32 },
                    end: Pos { line: end.0 as u32, col: end.1 as u32 },
                },
                kind: HighlightKind::Selection,
            },
        )
    }

    // ── Search highlights ───────────────────────────────────────────

    /// The search highlights of a row; none past the end of the text.
    pub fn highlights_for_line(&mut self, line: u32) -> (v: Vec<Highlight>)
        ensures
            v@ == row_highlights(*old(self), line),
            *final(self) == *old(self),
    {
        if line >= Query::line_count(&self.buffer) {
            return Vec::new();
        }
        let t = Query::line(&self.buffer, line);
        if let Some(prompt) = &self.vim.search_prompt {
            if prompt.text.as_str().is_empty() {
                return Vec::new();
            }
            return match pattern::compile(prompt.text.as_str()) {
                Ok(re) => {
                    let matches = pattern::all_matches(&re, t);
                    match_highlights(t, &matches, line, HighlightKind::IncSearch)
                },
                Err(e) => Vec::new(),
            };
        }
        match &self.search_state.pattern {
            Some(re) => {
                let matches = search::row_matches(&self.buffer, re, line as usize);
                match_highlights(t, &matches, line, HighlightKind::SearchMatch)
            },
            None => Vec::new(),
        }
    }

    // ── Frames and snapshots ────────────────────────────────────────

    /// What a host needs to draw one frame.
    pub fn render_frame(&self) -> (f: RenderFrame)
        ensures
            f == frame_of(*self),
    {
        let (row, col) = self.cursor();
        let cursor_shape = if matches!(self.vim.mode, VimMode::Insert) {
            CursorShape::Bar
        } else {
            CursorShape::Block
        };
        RenderFrame {
            mode: summarize(self.vim.mode),
            cursor_row: row as u32,
            cursor_col: col as u32,
            cursor_shape,
            viewport_top: self.host.viewport().top_row as u32,
            line_count: Query::line_count(&self.buffer),
        }
    }

    /// The state of the editor that can be saved.
    pub fn take_snapshot(&self) -> (s: EditorSnapshot)
        ensures
            shows(s, *self),
    {
        let (row, col) = self.cursor();
        let byte: usize = rope::byte_offset(motions::read_line(&self.buffer, row), col);
        let all = self.marks.to_vec();
        EditorSnapshot {
            version: EditorSnapshot::VERSION,
            mode: summarize(self.vim.mode),
            cursor: (row as u32, byte as u32),
            lines: editing::lines_to_vec(&self.buffer),
            viewport_top: self.host.viewport().top_row as u32,
            registers: self.registers.clone(),
            file_marks: narrow_marks(&all),
        }
    }

    /// Brings the editor to what a snapshot shows. A snapshot of another
    /// version is refused, and the editor stays as it is.
    pub fn restore_snapshot(&mut self, s: EditorSnapshot) -> (r: Result<(), EngineError>)
        ensures
            s.version == EditorSnapshot::VERSION ==> r is Ok && brought_to(
                *old(self),
                *final(self),
                s,
            ),
            s.version != EditorSnapshot::VERSION ==> r == Err::<(), EngineError>(
                EngineError::SnapshotVersion(s.version, EditorSnapshot::VERSION),
            ) && *final(self) == *old(self),
    {
        if s.version != EditorSnapshot::VERSION {
            return Err(EngineError::SnapshotVersion(s.version, EditorSnapshot::VERSION));
        }
        let t = editing::join_lines(&s.lines);
        self.set_content(t.as_str());
        let last: usize = rope::rope_row_count(&self.buffer) - 1;
        let row: usize = if (s.cursor.0 as usize) < last {
            s.cursor.0 as usize
        } else {
            last
        };
        let line = match rope::rope_line(&self.buffer, row) {
            Some(s) => s,
            None => "",
        };
        let col: usize = text::byte_to_col(line, s.cursor.1 as usize);
        proof {
            text::lemma_col_at_byte_bounds(line@, s.cursor.1 as int);
        }
        rope::rope_set_cursor(&mut self.buffer, Position::new(row, col));
        self.host.viewport_mut().top_row = s.viewport_top as usize;
        self.registers = s.registers;
        self.marks = marks_from(&s.file_marks);
        Ok(())
    }
}

/// Restoring what a snapshot showed of an editor brings back its text, its
/// cursor, the top of its viewport, its registers and its marks, as far as the
/// numbers fit in 32 bits.
pub proof fn law_snapshot_round_trip<H: Host>(
    e: Editor<RopeBuffer, H>,
    s: EditorSnapshot,
    b: Editor<RopeBuffer, H>,
    a: Editor<RopeBuffer, H>,
)
    requires
        shows(s, e),
        brought_to(b, a, s),
        edits::clean(rope::buffer_lines(e.buffer)),
        rope::buffer_lines(e.buffer).len() <= u32::MAX,
        buffer::in_text(rope::buffer_lines(e.buffer), rope::buffer_cursor(e.buffer)),
        text::byte_len(rope::buffer_lines(e.buffer)[rope::buffer_cursor(e.buffer).0]) <= u32::MAX,
        e.host.port().top_row <= u32::MAX,
        marks::marks_map(e.marks.list()) == e.marks@,
        forall|i: int|
            0 <= i < e.marks.list().len() ==> (#[trigger] e.marks.list()[i]).1.0 <= u32::MAX
                && e.marks.list()[i].1.1 <= u32::MAX,
    ensures
        rope::buffer_lines(a.buffer) == rope::buffer_lines(e.buffer),
        rope::buffer_cursor(a.buffer) == rope::buffer_cursor(e.buffer),
        a.host.port().top_row == e.host.port().top_row,
        a.registers.same(&e.registers),
        a.marks@ == e.marks@,
{
    let lines = rope::buffer_lines(e.buffer);
    assert(buffer_impl::shown_rows(lines) =~= lines);
    edits::lemma_split_join(lines);
    let at = rope::buffer_cursor(e.buffer);
    let line = lines[at.0];
    text::lemma_byte_len_prefix(line, 0, at.1);
    text::lemma_byte_len_prefix(line, at.1, line.len() as int);
    assert(line.take(line.len() as int) =~= line);
    text::lemma_col_at_byte_inverse(line, at.1);
    assert(wide(narrow(e.marks.list())) =~= e.marks.list());
}

/// One of three answers says where a selection lies, by the mode; outside the
/// visual modes none does.
pub proof fn law_modes_of_selection<H: Host>(e: Editor<RopeBuffer, H>)
    ensures
        chars_selected(e) is Some <==> e.vim.mode == VimMode::Visual,
        lines_selected(e) is Some <==> e.vim.mode == VimMode::VisualLine,
        block_selected(e) is Some <==> e.vim.mode == VimMode::VisualBlock,
        selection_shown(e) is Some <==> selection_of(e) is Some,
        selection_of(e) is None <==> e.vim.mode == VimMode::Normal || e.vim.mode
            == VimMode::Insert,
{
}

/// A selection reaches from its anchor to the cursor, the earlier of the two
/// first: a charwise one by place, a linewise one by row, a block by row and by
/// column each for itself, with the column that the block keeps for the cursor.
pub proof fn law_selection_reaches_the_cursor<H: Host>(e: Editor<RopeBuffer, H>)
    ensures
        chars_selected(e) matches Some((s, t)) ==> {
            let c = (e.buffer.at().line as usize, e.buffer.at().col as usize);
            &&& (s, t) == (e.vim.visual_anchor, c) || (s, t) == (c, e.vim.visual_anchor)
            &&& s.0 < t.0 || (s.0 == t.0 && s.1 <= t.1)
        },
        lines_selected(e) matches Some((s, t)) ==> {
            let c = e.buffer.at().line as usize;
            &&& (s, t) == (e.vim.visual_line_anchor, c) || (s, t) == (c, e.vim.visual_line_anchor)
            &&& s <= t
        },
        block_selected(e) matches Some((top, bottom, left, right)) ==> {
            let c = e.buffer.at().line as usize;
            &&& (top, bottom) == (e.vim.block_anchor.0, c) || (top, bottom) == (
                c,
                e.vim.block_anchor.0,
            )
            &&& (left, right) == (e.vim.block_anchor.1, e.vim.block_vcol) || (left, right) == (
                e.vim.block_vcol,
                e.vim.block_anchor.1,
            )
            &&& top <= bottom && left <= right
        },
{
}

/// The highlight of a selection starts and ends where the selection does; of a
/// linewise one, at the start of its first row and at the end of its last.
pub proof fn law_selection_is_highlighted<H: Host>(e: Editor<RopeBuffer, H>)
    requires
        rope::buffer_lines(e.buffer).len() <= u32::MAX,
        forall|i: int|
            0 <= i < rope::buffer_lines(e.buffer).len() ==> (#[trigger] rope::buffer_lines(
                e.buffer,
            )[i]).len() <= u32::MAX,
        e.vim.visual_anchor.0 <= u32::MAX && e.vim.visual_anchor.1 <= u32::MAX,
        e.vim.visual_line_anchor <= u32::MAX,
        e.vim.block_anchor.0 <= u32::MAX && e.vim.block_anchor.1 <= u32::MAX,
        e.vim.block_vcol <= u32::MAX,
    ensures
        selection_shown(e) matches Some(h) ==> h.kind == HighlightKind::Selection,
        chars_selected(e) matches Some((s, t)) ==> (selection_shown(e) matches Some(h)
            && h.range.start.line == s.0 && h.range.start.col == s.1 && h.range.end.line == t.0
            && h.range.end.col == t.1),
        lines_selected(e) matches Some((s, t)) ==> (selection_shown(e) matches Some(h)
            && h.range.start.line == s && h.range.start.col == 0 && h.range.end.line == t && (t
            < rope::buffer_lines(e.buffer).len() ==> h.range.end.col == rope::buffer_lines(
            e.buffer,
        )[t as int].len())),
        block_selected(e) matches Some((top, bottom, left, right)) ==> (selection_shown(
            e,
        ) matches Some(h) && h.range.start.line == top && h.range.start.col == left
            && h.range.end.line == bottom && h.range.end.col == right),
{
    assert(buffer_impl::shown_rows(rope::buffer_lines(e.buffer)) =~= rope::buffer_lines(e.buffer));
}

/// Every match of a row has its highlight, in order, from the column at which it
/// starts to the column at which it ends.
pub proof fn law_matches_are_highlighted(
    line: Seq<char>,
    matches: Seq<(usize, usize)>,
    row: u32,
    kind: HighlightKind,
    i: int,
    from: u32,
    to: u32,
)
    requires
        0 <= i < matches.len(),
        from <= line.len() && text::byte_len(line.take(from as int)) == matches[i].0,
        to <= line.len() && text::byte_len(line.take(to as int)) == matches[i].1,
    ensures
        highlights_of(line, matches, row, kind).len() == matches.len(),
        ({
            let h = highlights_of(line, matches, row, kind)[i];
            &&& h.kind == kind
            &&& h.range.start == (Pos { line: row, col: from })
            &&& h.range.end == (Pos { line: row, col: to })
        }),
{
    text::lemma_col_at_byte_inverse(line, from as int);
    text::lemma_col_at_byte_inverse(line, to as int);
}

/// While a pattern is typed, its matches are highlighted, and those of the active
/// pattern are not; an empty prompt, and one that is no pattern, highlight nothing.
/// Otherwise the matches of the active pattern are highlighted, where there is one.
/// There is nothing to highlight past the end of the text.
pub proof fn law_which_matches_are_highlighted<H: Host>(
    e: Editor<RopeBuffer, H>,
    row: u32,
    i: int,
)
    ensures
        ({
            let hs = row_highlights(e, row);
            let line = e.buffer.rows()[row as int];
            let inside = row < e.buffer.rows().len();
            &&& !inside ==> hs.len() == 0
            &&& 0 <= i < hs.len() ==> hs[i].range.start.line == row && hs[i].range.end.line == row
            &&& inside ==> match (e.vim.search_prompt, e.search_state.pattern) {
                (Some(p), _) => {
                    &&& p.text@ == Seq::<char>::empty() ==> hs.len() == 0
                    &&& pattern::compiled(p.text@) is Err ==> hs.len() == 0
                    &&& p.text@.len() > 0 && pattern::compiled(p.text@) is Ok ==> hs.len()
                        == pattern::matches_in(pattern::compiled(p.text@)->Ok_0, line).len()
                    &&& 0 <= i < hs.len() ==> hs[i].kind == HighlightKind::IncSearch
                },
                (None, Some(re)) => {
                    &&& hs.len() == pattern::matches_in(re, line).len()
                    &&& 0 <= i < hs.len() ==> hs[i].kind == HighlightKind::SearchMatch
                },
                (None, None) => hs.len() == 0,
            }
        }),
{
}

/// A frame shows the editor's own mode, cursor, top row and number of lines, as far
/// as they count in 32 bits.
pub proof fn law_frame_shows_the_editor<H: Host>(e: Editor<RopeBuffer, H>)
    requires
        rope::buffer_lines(e.buffer).len() <= u32::MAX,
        e.host.port().top_row <= u32::MAX,
        buffer::in_text(rope::buffer_lines(e.buffer), rope::buffer_cursor(e.buffer)),
        rope::buffer_cursor(e.buffer).1 <= u32::MAX,
    ensures
        ({
            let f = frame_of(e);
            &&& (f.cursor_row as int, f.cursor_col as int) == rope::buffer_cursor(e.buffer)
            &&& f.line_count == rope::buffer_lines(e.buffer).len()
            &&& f.viewport_top == e.host.port().top_row
            &&& f.mode == SnapshotMode::Normal <==> e.vim.mode == VimMode::Normal
            &&& f.mode == SnapshotMode::Insert <==> e.vim.mode == VimMode::Insert
            &&& f.mode == SnapshotMode::Visual <==> e.vim.mode == VimMode::Visual
            &&& f.mode == SnapshotMode::VisualLine <==> e.vim.mode == VimMode::VisualLine
            &&& f.mode == SnapshotMode::VisualBlock <==> e.vim.mode == VimMode::VisualBlock
            &&& f.cursor_shape == CursorShape::Bar <==> e.vim.mode == VimMode::Insert
        }),
{
}

/// A snapshot and a frame of the same editor agree on the mode, on the cursor's row
/// and on the top row, and the snapshot counts the cursor's column in bytes.
pub proof fn law_snapshot_agrees_with_the_frame<H: Host>(
    e: Editor<RopeBuffer, H>,
    s: EditorSnapshot,
)
    requires
        shows(s, e),
        buffer::in_text(rope::buffer_lines(e.buffer), rope::buffer_cursor(e.buffer)),
        rope::buffer_lines(e.buffer).len() <= u32::MAX,
        text::byte_len(rope::buffer_lines(e.buffer)[rope::buffer_cursor(e.buffer).0]) <= u32::MAX,
    ensures
        s.mode == frame_of(e).mode,
        s.cursor.0 == frame_of(e).cursor_row,
        s.viewport_top == frame_of(e).viewport_top,
        s.lines@.len() == frame_of(e).line_count,
        ({
            let (row, col) = rope::buffer_cursor(e.buffer);
            s.cursor.1 == text::byte_len(rope::buffer_lines(e.buffer)[row].take(col))
        }),
{
    let (row, col) = rope::buffer_cursor(e.buffer);
    let line = rope::buffer_lines(e.buffer)[row];
    assert(e.buffer.rows() =~= rope::buffer_lines(e.buffer));
    assert(buffer::texts(s.lines@).len() == s.lines@.len());
    text::lemma_byte_len_prefix(line, 0, col);
    text::lemma_byte_len_prefix(line, col, line.len() as int);
    assert(line.take(line.len() as int) =~= line);
}

/// An editor that was brought to a snapshot has no history to undo or to redo, tells
/// the host that the whole text is new, and stays in its mode with its settings.
pub proof fn law_restored_editor_starts_over<H: Host>(
    b: Editor<RopeBuffer, H>,
    a: Editor<RopeBuffer, H>,
    s: EditorSnapshot,
)
    requires
        brought_to(b, a, s),
    ensures
        a.undo_stack@.len() == 0 && a.redo_stack@.len() == 0,
        a.content_dirty && a.cached_content is None,
        a.pending_content_reset && a.pending_content_edits@.len() == 0,
        a.vim == b.vim && a.settings == b.settings,
        a.registers == s.registers,
        a.host.port().top_row == s.viewport_top && a.host.port().height == b.host.port().height,
{
}

/// The cursor of a snapshot that lies past the text goes to the last row, or to the
/// end of its row.
pub proof fn law_cursor_of_a_snapshot_is_kept_in(lines: Seq<Seq<char>>, at: (u32, u32))
    requires
        lines.len() > 0,
    ensures
        ({
            let p = place_of_bytes(lines, at);
            &&& buffer::in_text(lines, p)
            &&& at.0 < lines.len() ==> p.0 == at.0
            &&& at.0 >= lines.len() ==> p.0 == lines.len() - 1
            &&& at.1 >= text::byte_len(lines[p.0]) ==> p.1 == lines[p.0].len()
            &&& text::byte_len(lines[p.0].take(p.1)) <= at.1
            &&& p.1 < lines[p.0].len() ==> at.1 < text::byte_len(lines[p.0].take(p.1 + 1))
        }),
{
    let row = buffer::row_clamped(lines, at.0 as int);
    text::lemma_col_at_byte_bounds(lines[row], at.1 as int);
}

} // verus!
