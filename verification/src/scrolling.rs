//! Moving the viewport over the text and the cursor across the screen.
use hjkl_buffer::Buffer as RopeBuffer;
use vstd::prelude::*;

use crate::buffer;
use crate::buffer::{Viewport, Wrap};
use crate::buffer_impl;
use crate::editing;
use crate::editor::Editor;
use crate::folds::{BufferFoldProvider, FoldProvider};
use crate::motions;
use crate::rope;
use crate::search;
use crate::state::VimState;
use crate::surface::{Cursor, Query};
use crate::text;
use crate::types::{Host, Pos};
use crate::viewport_math;
use crate::VimMode;

verus! {

/// How many rows are kept between the cursor and the edges of the screen.
pub const SCROLLOFF: usize = 5;

/// Where a scroll leaves the row of the cursor on the screen.
#[derive(Debug, Clone, Copy, PartialEq, Eq, Structural)]
pub enum CursorScrollTarget {
    Center,
    Top,
    Bottom,
}

/// An area of the screen in cells.
#[derive(Debug, Clone, Copy, PartialEq, Eq, Structural, Default)]
pub struct Rect {
    pub x: u16,
    pub y: u16,
    pub width: u16,
    pub height: u16,
}

// ── Model ───────────────────────────────────────────────────────────

/// The rows kept free at each edge of a screen of `height` rows: never so many
/// that the two bands meet.
pub open spec fn margin_of(height: int) -> int {
    text::min(SCROLLOFF as int, (height - 1) / 2)
}

/// The top row from which a screen of `height` rows shows the cursor with the
/// margin kept, moved as little as needed, and with no blank rows below the
/// text.
pub open spec fn scrolloff_top(top: int, cursor_row: int, last_row: int, height: int) -> int {
    let margin = margin_of(height);
    let reach = height - 1 - margin;
    let above = if cursor_row < top + margin {
        text::max(cursor_row - margin, 0)
    } else {
        top
    };
    let below = if cursor_row > above + reach {
        cursor_row - reach
    } else {
        above
    };
    text::min(below, text::max(last_row - (height - 1), 0))
}

/// The first visible row from `top` on that brings a place into the first
/// `limit` screen rows, or the row of the place itself.
pub open spec fn top_within(
    rows: Seq<Seq<char>>,
    folds: Seq<(int, int, bool)>,
    v: Viewport,
    top: int,
    at: (int, int),
    limit: int,
) -> int {
    viewport_math::top_showing(rows, folds, Viewport { height: limit as u16, ..v }, top, at)
}

/// The top row moved up over visible rows until the screen row of a place is
/// at least `margin`, as far as it does not come to lie past `reach`.
pub open spec fn pulled_top(
    rows: Seq<Seq<char>>,
    folds: Seq<(int, int, bool)>,
    v: Viewport,
    top: int,
    at: (int, int),
    margin: int,
    reach: int,
) -> int
    decreases top,
{
    match (
        viewport_math::screen_row(rows, folds, v, top, at),
        buffer::prev_visible(folds, top),
    ) {
        (Some(here), Some(r)) => match viewport_math::screen_row(rows, folds, v, r, at) {
            Some(there) => if here < margin && there <= reach && 0 <= r < top {
                pulled_top(rows, folds, v, r, at, margin, reach)
            } else {
                top
            },
            None => top,
        },
        _ => top,
    }
}

/// The last row from which the rows down to the end fill `height` screen rows.
pub open spec fn full_top(
    rows: Seq<Seq<char>>,
    folds: Seq<(int, int, bool)>,
    v: Viewport,
    height: int,
) -> int {
    if rows.len() == 0 {
        0
    } else {
        choose|top: int| viewport_math::is_max_top(rows, folds, v, height, top)
    }
}

/// The top row under soft wrap: no lower than the cursor's row, then down
/// until the cursor leaves the bottom margin, then up until it leaves the top
/// margin, then up until no blank rows follow the text, as far as the cursor
/// stays on the screen. A cursor that a fold hides has no place on the screen,
/// and the top is kept in the text only.
pub open spec fn wrapped_top(
    rows: Seq<Seq<char>>,
    folds: Seq<(int, int, bool)>,
    v: Viewport,
    at: (int, int),
    height: int,
) -> int {
    let margin = margin_of(height);
    let reach = height - 1 - margin;
    let start = text::min(v.top_row as int, at.0);
    let full = full_top(rows, folds, v, height);
    if buffer::hidden(folds, at.0) {
        text::min(start, full)
    } else {
        let down = top_within(rows, folds, v, start, at, reach + 1);
        let up = pulled_top(rows, folds, v, down, at, margin, reach);
        if up <= full {
            up
        } else {
            text::min(up, top_within(rows, folds, v, full, at, height))
        }
    }
}

/// The viewport after it followed the cursor, where `height` is the height
/// that the host last drew (0 where it drew nothing yet).
pub open spec fn viewport_following(b: RopeBuffer, v: Viewport, height: int) -> Viewport {
    let rows = b.rows();
    let folds = rope::buffer_folds(b);
    let at = motions::cursor_place(b);
    if height == 0 {
        viewport_math::viewport_showing(rows, folds, v, at)
    } else if !motions::wraps_rows(v) {
        (Viewport {
            top_row: scrolloff_top(
                v.top_row as int,
                at.0,
                motions::last_row(rows),
                height,
            ) as usize,
            ..v
        }).showing(at)
    } else {
        Viewport {
            top_row: wrapped_top(
                rows,
                folds,
                v,
                at,
                height,
            ) as usize,
            top_col: 0,
            ..v
        }
    }
}

/// The top row after a scroll by `delta` rows: no further than the last row.
pub open spec fn top_after_scroll(top: int, delta: int, rows: int) -> int {
    text::min(text::max(top + delta, 0), text::max(rows - 1, 0))
}

/// The row of the cursor after a scroll: the closest to where it was that
/// keeps the margin on a screen of `height` rows from `top` on.
pub open spec fn row_after_scroll(top: int, height: int, row: int) -> int {
    let margin = text::min(SCROLLOFF as int, height / 2);
    let lo = top + margin;
    let hi = text::max(top + text::max(height - 1 - margin, 0), lo);
    text::min(text::max(row, lo), hi)
}

/// The top row that leaves `row` in the middle, at the top or at the bottom of
/// a screen of `height` rows, the margin kept.
pub open spec fn top_for_target(row: int, height: int, target: CursorScrollTarget) -> int {
    let margin = margin_of(height);
    let above = match target {
        CursorScrollTarget::Center => height / 2,
        CursorScrollTarget::Top => margin,
        CursorScrollTarget::Bottom => height - 1 - margin,
    };
    text::max(row - above, 0)
}

/// The width of the line number gutter: the digits of the row count and two
/// blanks.
pub open spec fn gutter_width(rows: int) -> int {
    text::digits(rows as nat).len() + 2int
}

/// Where a place is drawn in an area of the given width and height, the gutter
/// included; `None` where it is not on the screen.
pub open spec fn screen_spot(
    rows: int,
    v: Viewport,
    at: (int, int),
    area: (int, int),
    size: (int, int),
) -> Option<(int, int)> {
    let dx = at.1 - v.top_col + gutter_width(rows);
    let dy = at.0 - v.top_row;
    if at.0 < v.top_row || at.1 < v.top_col || dy >= size.1 || dx >= size.0 {
        None
    } else {
        Some((area.0 + dx, area.1 + dy))
    }
}

/// The place of the text under a cell of the screen. The area starts with one
/// row of tabs and one column of padding, then comes the gutter; a cell past
/// the end of a line stands for its last character.
pub open spec fn place_under(
    rows: Seq<Seq<char>>,
    top: int,
    area: (int, int),
    cell: (int, int),
) -> (int, int) {
    let row = text::min(top + text::max(cell.1 - (area.1 + 1), 0), motions::last_row(rows));
    let col = text::max(cell.0 - (area.0 + 1 + gutter_width(rows.len() as int)), 0);
    (row, text::min(col, motions::last_col(motions::line_at(rows, row))))
}

/// Whether a search of an editor goes on at the other end of the text.
pub open spec fn wraps_searches<H: Host>(e: Editor<RopeBuffer, H>) -> bool {
    e.search_state.wrap_around && e.settings.wrapscan
}

/// The row of a line number that counts from 1, no further than the last row.
pub open spec fn line_numbered(rows: Seq<Seq<char>>, line: usize) -> int {
    text::min(text::max(line - 1, 0), motions::last_row(rows))
}

/// The place of a line and a column number that count from 1, no further than the
/// last row and the end of its line.
pub open spec fn place_numbered(rows: Seq<Seq<char>>, line: usize, col: usize) -> (int, int) {
    let row = line_numbered(rows, line);
    (row, text::min(text::max(col - 1, 0), motions::line_at(rows, row).len() as int))
}

/// The cursor was sent to a place, and nothing else happened.
pub open spec fn cursor_sent<H: Host>(
    b: Editor<RopeBuffer, H>,
    a: Editor<RopeBuffer, H>,
    to: (int, int),
) -> bool {
    &&& rope::only_cursor_moved(b.buffer, a.buffer)
    &&& rope::buffer_cursor(a.buffer) == buffer::clamp(
        rope::buffer_lines(b.buffer),
        buffer_impl::as_place(buffer_impl::as_pos(to)),
    )
    &&& a == (Editor { buffer: a.buffer, ..b })
}

/// The cursor was sent to the match that a search for the editor's pattern comes
/// to, where there is one.
pub open spec fn search_went<H: Host>(
    b: Editor<RopeBuffer, H>,
    a: Editor<RopeBuffer, H>,
    forward: bool,
    skip_current: bool,
    found: bool,
) -> bool {
    match search::search_target(
        b.buffer,
        b.search_state.pattern,
        wraps_searches(b),
        forward,
        skip_current,
    ) {
        Some(p) => found && cursor_sent(b, a, buffer_impl::as_place(p)),
        None => !found && a == b,
    }
}

/// A charwise selection is active: a new one from the cursor on, unless there was
/// one.
pub open spec fn drag_begun<H: Host>(
    b: Editor<RopeBuffer, H>,
    a: Editor<RopeBuffer, H>,
) -> bool {
    a == if b.vim.mode is Visual {
        b
    } else {
        Editor {
            vim: VimState {
                mode: VimMode::Visual,
                visual_anchor: (b.buffer.at().line as usize, b.buffer.at().col as usize),
                ..b.vim
            },
            ..b
        }
    }
}

/// A host shows a viewport; its clipboard and its cursor shape are as they were.
pub open spec fn host_shows<H: Host>(b: H, a: H, v: Viewport) -> bool {
    &&& a.port() == v
    &&& a.clipboard_text() == b.clipboard_text()
    &&& a.shape() == b.shape()
}

/// The viewport of the host is now `v`, and nothing else of the editor changed.
pub open spec fn viewport_set<H: Host>(
    b: Editor<RopeBuffer, H>,
    a: Editor<RopeBuffer, H>,
    v: Viewport,
) -> bool {
    &&& host_shows(b.host, a.host, v)
    &&& a == (Editor { host: a.host, ..b })
}

// ── Helpers ─────────────────────────────────────────────────────────

fn margin_for(height: usize) -> (m: usize)
    requires
        height > 0,
    ensures
        m == margin_of(height as int),
        m <= height - 1 - m,
{
    let half: usize = (height - 1) / 2;
    if half < SCROLLOFF {
        half
    } else {
        SCROLLOFF
    }
}

/// `a - b`, at least 0.
fn less(a: usize, b: usize) -> (n: usize)
    ensures
        n == text::max(a - b, 0),
{
    if a > b {
        a - b
    } else {
        0
    }
}

fn gutter(rows: usize) -> (w: usize)
    requires
        rows <= u32::MAX,
    ensures
        w == gutter_width(rows as int),
        w <= 0x2000_0000,
{
    let mut count: usize = 1;
    let mut rest: usize = rows;
    while rest >= 10
        invariant
            rows <= u32::MAX,
            count >= 1,
            (count - 1) * 9 + rest <= rows,
            text::digits(rows as nat).len() == count - 1 + text::digits(rest as nat).len(),
        decreases rest,
    {
        rest = rest / 10;
        count = count + 1;
    }
    count + 2
}

fn scroll_top(top: usize, delta: i32, rows: usize) -> (r: usize)
    requires
        rows <= u32::MAX,
    ensures
        r == top_after_scroll(top as int, delta as int, rows as int),
        r <= u32::MAX,
{
    let last: usize = less(rows, 1);
    if delta > 0 {
        text::advance(top, delta as usize, last)
    } else {
        let up: usize = less(top, (-(delta as i64)) as usize);
        if up < last {
            up
        } else {
            last
        }
    }
}

fn scroll_row(top: u32, height: u16, row: u32) -> (r: u64)
    requires
        height > 0,
    ensures
        r == row_after_scroll(top as int, height as int, row as int),
{
    let half: u64 = height as u64 / 2;
    let margin: u64 = if half < SCROLLOFF as u64 {
        half
    } else {
        SCROLLOFF as u64
    };
    let lo: u64 = top as u64 + margin;
    let last: u64 = height as u64 - 1;
    let reach: u64 = if last > margin {
        top as u64 + (last - margin)
    } else {
        top as u64
    };
    let hi: u64 = if reach > lo {
        reach
    } else {
        lo
    };
    if (row as u64) < lo {
        lo
    } else if row as u64 > hi {
        hi
    } else {
        row as u64
    }
}

fn find_top_within(b: &RopeBuffer, v: &Viewport, from: usize, limit: u16) -> (top: usize)
    requires
        motions::wraps_rows(*v),
        motions::rows_wrap(b.rows(), *v),
        from <= motions::cursor_place(*b).0,
        limit > 0,
    ensures
        top == top_within(
            b.rows(),
            rope::buffer_folds(*b),
            *v,
            from as int,
            motions::cursor_place(*b),
            limit as int,
        ),
{
    let folds = BufferFoldProvider::new(b);
    let mut w = *v;
    w.top_row = from;
    w.height = limit;
    proof {
        let narrow = Viewport { height: limit, ..*v };
        let list = rope::buffer_folds(*b);
        let at = motions::cursor_place(*b);
        viewport_math::lemma_top_same(b.rows(), list, w, narrow, from as int, at);
        viewport_math::lemma_top_shows(b.rows(), list, narrow, from as int, at);
    }
    viewport_math::ensure_cursor_visible(b, &folds, &mut w);
    w.top_row
}

fn pull_top(b: &RopeBuffer, v: &Viewport, from: usize, margin: usize, reach: usize) -> (top: usize)
    requires
        motions::wraps_rows(*v) ==> motions::rows_wrap(b.rows(), *v),
    ensures
        top == pulled_top(
            b.rows(),
            rope::buffer_folds(*b),
            *v,
            from as int,
            motions::cursor_place(*b),
            margin as int,
            reach as int,
        ),
{
    let ghost rows = b.rows();
    let ghost list = rope::buffer_folds(*b);
    let ghost at = motions::cursor_place(*b);
    let folds = BufferFoldProvider::new(b);
    let mut top: usize = from;
    loop
        invariant
            motions::wraps_rows(*v) ==> motions::rows_wrap(b.rows(), *v),
            rows == b.rows(),
            list == rope::buffer_folds(*b),
            at == motions::cursor_place(*b),
            folds.buffer == b,
            pulled_top(rows, list, *v, from as int, at, margin as int, reach as int) == pulled_top(
                rows,
                list,
                *v,
                top as int,
                at,
                margin as int,
                reach as int,
            ),
        decreases top,
    {
        let prev: usize = match folds.prev_visible_row(top) {
            Some(r) => r,
            None => {
                return top;
            },
        };
        proof {
            crate::folds::law_prev_visible(list, top as int);
        }
        let near = match viewport_math::cursor_screen_row_from(b, &folds, v, top) {
            Some(n) => n < margin as u128,
            None => false,
        };
        let fits = match viewport_math::cursor_screen_row_from(b, &folds, v, prev) {
            Some(n) => n <= reach as u128,
            None => false,
        };
        if !near || !fits {
            return top;
        }
        top = prev;
    }
}

impl<H: Host> Editor<RopeBuffer, H> {
    // ── The cursor ──────────────────────────────────────────────────

    /// The cursor as row and column.
    pub fn cursor(&self) -> (c: (usize, usize))
        ensures
            c == (self.buffer.at().line as usize, self.buffer.at().col as usize),
    {
        let p = motions::read_cursor(&self.buffer);
        (p.row, p.col)
    }

    /// Sends the cursor to a row and a column, clamped to the text.
    pub fn jump_cursor(&mut self, row: usize, col: usize)
        ensures
            cursor_sent(*old(self), *final(self), (row as int, col as int)),
    {
        Cursor::set_cursor(&mut self.buffer, Pos { line: row as u32, col: col as u32 });
    }

    /// Sends the cursor to the start of a line, counted from 1.
    pub fn goto_line(&mut self, line: usize)
        ensures
            cursor_sent(
                *old(self),
                *final(self),
                (line_numbered(old(self).buffer.rows(), line), 0int),
            ),
    {
        let last: usize = less(motions::read_row_count(&self.buffer), 1);
        let row: usize = less(line, 1);
        self.jump_cursor(if row < last { row } else { last }, 0);
    }

    /// Sends the cursor to a line and a column, both counted from 1.
    pub fn jump_to(&mut self, line: usize, col: usize)
        ensures
            cursor_sent(
                *old(self),
                *final(self),
                place_numbered(old(self).buffer.rows(), line, col),
            ),
    {
        let last: usize = less(motions::read_row_count(&self.buffer), 1);
        let row: usize = less(line, 1);
        let row: usize = if row < last {
            row
        } else {
            last
        };
        let len: usize = text::char_count(motions::read_line(&self.buffer, row));
        let col: usize = less(col, 1);
        self.jump_cursor(row, if col < len { col } else { len });
    }

    /// Sends the cursor to the next match of the search pattern, and says
    /// whether there was one. The match at the cursor can be left out. The
    /// search goes on at the start of the text where the search state and the
    /// settings both let it.
    pub fn search_advance_forward(&mut self, skip_current: bool) -> (found: bool)
        ensures
            search_went(*old(self), *final(self), true, skip_current, found),
    {
        let wrap = self.search_state.wrap_around && self.settings.wrapscan;
        match search::find_match(
            &self.buffer,
            &self.search_state.pattern,
            wrap,
            true,
            skip_current,
        ) {
            Some(p) => {
                Cursor::set_cursor(&mut self.buffer, p);
                true
            },
            None => false,
        }
    }

    /// Sends the cursor to the match of the search pattern before it, and says
    /// whether there was one. The match at the cursor can be left out. The
    /// search goes on at the end of the text where the search state and the
    /// settings both let it.
    pub fn search_advance_backward(&mut self, skip_current: bool) -> (found: bool)
        ensures
            search_went(*old(self), *final(self), false, skip_current, found),
    {
        let wrap = self.search_state.wrap_around && self.settings.wrapscan;
        match search::find_match(
            &self.buffer,
            &self.search_state.pattern,
            wrap,
            false,
            skip_current,
        ) {
            Some(p) => {
                Cursor::set_cursor(&mut self.buffer, p);
                true
            },
            None => false,
        }
    }

    // ── The viewport ────────────────────────────────────────────────

    /// Keeps the height of the text area as it was last drawn.
    pub fn set_viewport_height(&mut self, height: u16)
        ensures
            *final(self) == (Editor { viewport_height: height, ..*old(self) }),
    {
        self.viewport_height = height;
    }

    /// The height of the text area as it was last drawn.
    pub fn viewport_height_value(&self) -> (h: u16)
        ensures
            h == self.viewport_height,
    {
        self.viewport_height
    }

    /// Hands the height of the text area to the host's viewport.
    pub fn sync_viewport_height(&mut self)
        ensures
            viewport_set(
                *old(self),
                *final(self),
                (Viewport { height: old(self).viewport_height, ..old(self).host.port() }),
            ),
    {
        let height: u16 = self.viewport_height;
        self.host.viewport_mut().height = height;
    }

    /// Moves the top of the viewport, no further than the last row. The cursor
    /// stays where it is.
    pub fn set_viewport_top(&mut self, row: usize)
        ensures
            viewport_set(
                *old(self),
                *final(self),
                (Viewport {
                    top_row: text::min(
                        row as int,
                        motions::last_row(old(self).buffer.rows()),
                    ) as usize,
                    ..old(self).host.port()
                }),
            ),
    {
        let last: usize = less(motions::read_row_count(&self.buffer), 1);
        self.host.viewport_mut().top_row = if row < last {
            row
        } else {
            last
        };
    }

    fn scrolloff_wrap(&self, v: &Viewport, height: u16) -> (top: usize)
        requires
            height > 0,
            motions::wraps_rows(*v),
            motions::rows_wrap(self.buffer.rows(), *v),
        ensures
            top == wrapped_top(
                self.buffer.rows(),
                rope::buffer_folds(self.buffer),
                *v,
                motions::cursor_place(self.buffer),
                height as int,
            ),
    {
        let ghost rows = self.buffer.rows();
        let ghost list = rope::buffer_folds(self.buffer);
        let ghost at = motions::cursor_place(self.buffer);
        let margin: usize = margin_for(height as usize);
        let reach: usize = height as usize - 1 - margin;
        let row: usize = motions::read_cursor(&self.buffer).row;
        let start: usize = if row < v.top_row {
            row
        } else {
            v.top_row
        };
        let folds = BufferFoldProvider::new(&self.buffer);
        let full: usize = viewport_math::max_top_for_height(
            &self.buffer,
            &folds,
            v,
            height as usize,
        );
        proof {
            if rows.len() > 0 {
                assert(viewport_math::is_max_top(rows, list, *v, height as int, full as int));
                viewport_math::law_one_max_top(
                    rows,
                    list,
                    *v,
                    height as int,
                    full as int,
                    full_top(rows, list, *v, height as int),
                );
            }
        }
        if folds.is_row_hidden(row) {
            return if start < full {
                start
            } else {
                full
            };
        }
        let down: usize = find_top_within(&self.buffer, v, start, reach as u16 + 1);
        proof {
            viewport_math::lemma_top_shows(
                rows,
                list,
                Viewport { height: (reach + 1) as u16, ..*v },
                start as int,
                at,
            );
            lemma_pulled(rows, list, *v, down as int, at, margin as int, reach as int);
        }
        let up: usize = pull_top(&self.buffer, v, down, margin, reach);
        if up <= full {
            return up;
        }
        let shown: usize = find_top_within(&self.buffer, v, full, height);
        if up < shown {
            up
        } else {
            shown
        }
    }

    /// Moves the viewport so that the cursor keeps [`SCROLLOFF`] rows from its
    /// edges. Before anything was drawn, the viewport moves as little as
    /// needed to show the cursor.
    pub fn ensure_cursor_in_scrolloff(&mut self)
        requires
            motions::wraps_rows(old(self).host.port()) ==> motions::rows_wrap(
                old(self).buffer.rows(),
                old(self).host.port(),
            ),
        ensures
            viewport_set(
                *old(self),
                *final(self),
                viewport_following(
                    old(self).buffer,
                    old(self).host.port(),
                    old(self).viewport_height as int,
                ),
            ),
    {
        let height: usize = self.viewport_height as usize;
        let mut v = *self.host.viewport();
        if height == 0 {
            let folds = BufferFoldProvider::new(&self.buffer);
            viewport_math::ensure_cursor_visible(&self.buffer, &folds, &mut v);
        } else if matches!(v.wrap, Wrap::Off) || v.text_width == 0 {
            let cursor = motions::read_cursor(&self.buffer);
            let last: usize = less(motions::read_row_count(&self.buffer), 1);
            let margin: usize = margin_for(height);
            let reach: usize = height - 1 - margin;
            if cursor.row < v.top_row || cursor.row - v.top_row < margin {
                v.top_row = less(cursor.row, margin);
            }
            if cursor.row > v.top_row && cursor.row - v.top_row > reach {
                v.top_row = cursor.row - reach;
            }
            let full: usize = less(last, height - 1);
            if v.top_row > full {
                v.top_row = full;
            }
            v.ensure_visible(cursor);
        } else {
            v.top_row = self.scrolloff_wrap(&v, self.viewport_height);
            v.top_col = 0;
        }
        *self.host.viewport_mut() = v;
    }

    /// Scrolls by `delta` rows, down where it is positive. The cursor stays on
    /// its line unless that line comes too close to an edge; then it moves to
    /// the closest line that does not.
    fn scroll_viewport(&mut self, delta: i32)
        ensures
            scrolled_by(*old(self), *final(self), delta as int),
    {
        if delta == 0 {
            return;
        }
        let n: usize = motions::read_row_count(&self.buffer);
        let height: u16 = self.viewport_height;
        let top: usize = self.host.viewport().top_row;
        let new_top: usize = scroll_top(top, delta, n);
        self.host.viewport_mut().top_row = new_top;
        if height == 0 {
            return;
        }
        let cursor = motions::read_cursor(&self.buffer);
        let row: u64 = cursor.row as u64;
        let target: u64 = scroll_row(new_top as u32, height, cursor.row as u32);
        if target != row {
            let line = if target < n as u64 {
                motions::read_line(&self.buffer, target as usize)
            } else {
                ""
            };
            proof {
                reveal_strlit("");
            }
            let limit: usize = less(text::char_count(line), 1);
            let col: usize = if cursor.col < limit {
                cursor.col
            } else {
                limit
            };
            Cursor::set_cursor(&mut self.buffer, Pos { line: target as u32, col: col as u32 });
        }
    }

    /// Scrolls down by `rows` rows.
    pub fn scroll_down(&mut self, rows: i16)
        ensures
            scrolled_by(*old(self), *final(self), rows as int),
    {
        self.scroll_viewport(rows as i32);
    }

    /// Scrolls up by `rows` rows.
    pub fn scroll_up(&mut self, rows: i16)
        ensures
            scrolled_by(*old(self), *final(self), -(rows as int)),
    {
        self.scroll_viewport(-(rows as i32));
    }

    /// Scrolls so that the row of the cursor ends in the middle, at the top or
    /// at the bottom of the screen. The cursor stays where it is.
    pub fn scroll_cursor_to(&mut self, target: CursorScrollTarget)
        ensures
            old(self).viewport_height == 0 ==> *final(self) == *old(self),
            old(self).viewport_height > 0 ==> viewport_set(
                *old(self),
                *final(self),
                (Viewport {
                    top_row: top_for_target(
                        old(self).buffer.at().line as int,
                        old(self).viewport_height as int,
                        target,
                    ) as usize,
                    ..old(self).host.port()
                }),
            ),
    {
        let height: usize = self.viewport_height as usize;
        if height == 0 {
            return;
        }
        let row: usize = motions::read_cursor(&self.buffer).row;
        let margin: usize = margin_for(height);
        let above: usize = match target {
            CursorScrollTarget::Center => height / 2,
            CursorScrollTarget::Top => margin,
            CursorScrollTarget::Bottom => height - 1 - margin,
        };
        let new_top: usize = less(row, above);
        if new_top == self.host.viewport().top_row {
            return;
        }
        self.host.viewport_mut().top_row = new_top;
    }

    // ── The screen ──────────────────────────────────────────────────

    /// The row of the cursor on a screen of `height` rows. The top of the viewport
    /// is moved as little as needed to show it there.
    pub fn cursor_screen_row(&mut self, height: u16) -> (r: u16)
        requires
            height > 0,
        ensures
            ({
                let v = old(self).host.port();
                let row = old(self).buffer.at().line as int;
                let top = buffer::scrolled(v.top_row as int, height as int, row);
                &&& r == row - top
                &&& viewport_set(
                    *old(self),
                    *final(self),
                    (Viewport { top_row: top as usize, ..v }),
                )
            }),
    {
        let row: usize = motions::read_cursor(&self.buffer).row;
        let top: usize = buffer::scroll_to(self.host.viewport().top_row, height, row);
        self.host.viewport_mut().top_row = top;
        (row - top) as u16
    }

    /// Where the cursor is drawn in an area, the line number gutter included;
    /// `None` where it is not on the screen.
    pub fn cursor_screen_pos(
        &self,
        area_x: u16,
        area_y: u16,
        area_width: u16,
        area_height: u16,
    ) -> (r: Option<(u16, u16)>)
        requires
            match screen_spot(
                self.buffer.rows().len() as int,
                self.host.port(),
                motions::cursor_place(self.buffer),
                (area_x as int, area_y as int),
                (area_width as int, area_height as int),
            ) {
                Some(p) => p.0 <= u16::MAX && p.1 <= u16::MAX,
                None => true,
            },
        ensures
            match (
                r,
                screen_spot(
                    self.buffer.rows().len() as int,
                    self.host.port(),
                    motions::cursor_place(self.buffer),
                    (area_x as int, area_y as int),
                    (area_width as int, area_height as int),
                ),
            ) {
                (Some(a), Some(b)) => a.0 == b.0 && a.1 == b.1,
                (None, None) => true,
                _ => false,
            },
    {
        let cursor = motions::read_cursor(&self.buffer);
        let v = *self.host.viewport();
        if cursor.row < v.top_row || cursor.col < v.top_col {
            return None;
        }
        let width: usize = gutter(motions::read_row_count(&self.buffer));
        let dy: usize = cursor.row - v.top_row;
        let dx: usize = cursor.col - v.top_col;
        let w: usize = area_width as usize;
        if dy >= area_height as usize || dx >= w || width >= w - dx {
            return None;
        }
        Some(((area_x as u32 + (width + dx) as u32) as u16, (area_y as u32 + dy as u32) as u16))
    }

    /// The same as [`Editor::cursor_screen_pos`], for an area given as one
    /// value.
    pub fn cursor_screen_pos_in_rect(&self, area: Rect) -> (r: Option<(u16, u16)>)
        requires
            match screen_spot(
                self.buffer.rows().len() as int,
                self.host.port(),
                motions::cursor_place(self.buffer),
                (area.x as int, area.y as int),
                (area.width as int, area.height as int),
            ) {
                Some(p) => p.0 <= u16::MAX && p.1 <= u16::MAX,
                None => true,
            },
        ensures
            match (
                r,
                screen_spot(
                    self.buffer.rows().len() as int,
                    self.host.port(),
                    motions::cursor_place(self.buffer),
                    (area.x as int, area.y as int),
                    (area.width as int, area.height as int),
                ),
            ) {
                (Some(a), Some(b)) => a.0 == b.0 && a.1 == b.1,
                (None, None) => true,
                _ => false,
            },
    {
        self.cursor_screen_pos(area.x, area.y, area.width, area.height)
    }

    /// The place of the text under a cell of the screen.
    fn mouse_to_doc_pos_xy(&self, area_x: u16, area_y: u16, col: u16, row: u16) -> (p: (usize, usize))
        ensures
            (p.0 as int, p.1 as int) == place_under(
                self.buffer.rows(),
                self.host.port().top_row as int,
                (area_x as int, area_y as int),
                (col as int, row as int),
            ),
    {
        let n: usize = motions::read_row_count(&self.buffer);
        let rel_row: usize = less(row as usize, area_y as usize + 1);
        let rel_col: usize = less(col as usize, area_x as usize + 1 + gutter(n));
        let doc_row: usize = text::advance(self.host.viewport().top_row, rel_row, less(n, 1));
        let last: usize = less(text::char_count(motions::read_line(&self.buffer, doc_row)), 1);
        (doc_row, if rel_col < last { rel_col } else { last })
    }

    /// A click sends the cursor to the place under the mouse. It ends a visual
    /// mode, and while inserting it starts a new undo step where the settings
    /// ask for that.
    pub fn mouse_click(&mut self, area_x: u16, area_y: u16, col: u16, row: u16)
        ensures
            clicked(
                *old(self),
                *final(self),
                (area_x as int, area_y as int),
                (col as int, row as int),
            ),
    {
        if self.vim.is_visual() {
            self.vim.force_normal();
        }
        if matches!(self.vim.mode, VimMode::Insert) && self.settings.undo_break_on_motion {
            self.push_undo();
        }
        let (r, c) = self.mouse_to_doc_pos_xy(area_x, area_y, col, row);
        self.jump_cursor(r, c);
    }

    /// The same as [`Editor::mouse_click`], for an area given as one value.
    pub fn mouse_click_in_rect(&mut self, area: Rect, col: u16, row: u16)
        ensures
            clicked(
                *old(self),
                *final(self),
                (area.x as int, area.y as int),
                (col as int, row as int),
            ),
    {
        self.mouse_click(area.x, area.y, col, row);
    }

    /// Starts a selection at the cursor, unless a charwise one is active.
    pub fn mouse_begin_drag(&mut self)
        ensures
            drag_begun(*old(self), *final(self)),
    {
        if !matches!(self.vim.mode, VimMode::Visual) {
            let cursor = self.cursor();
            self.vim.enter_visual(cursor);
        }
    }

    /// Sends the cursor to the place under the mouse while it is dragged.
    pub fn mouse_extend_drag(&mut self, area_x: u16, area_y: u16, col: u16, row: u16)
        ensures
            cursor_sent(
                *old(self),
                *final(self),
                place_under(
                    old(self).buffer.rows(),
                    old(self).host.port().top_row as int,
                    (area_x as int, area_y as int),
                    (col as int, row as int),
                ),
            ),
    {
        let (r, c) = self.mouse_to_doc_pos_xy(area_x, area_y, col, row);
        self.jump_cursor(r, c);
    }

    /// The same as [`Editor::mouse_extend_drag`], for an area given as one
    /// value.
    pub fn mouse_extend_drag_in_rect(&mut self, area: Rect, col: u16, row: u16)
        ensures
            cursor_sent(
                *old(self),
                *final(self),
                place_under(
                    old(self).buffer.rows(),
                    old(self).host.port().top_row as int,
                    (area.x as int, area.y as int),
                    (col as int, row as int),
                ),
            ),
    {
        self.mouse_extend_drag(area.x, area.y, col, row);
    }
}

/// What a click on a cell does: the cursor goes to the place under it, a
/// visual mode ends, and while inserting, the text before it becomes an undo
/// step where the settings ask for that.
pub open spec fn clicked<H: Host>(
    b: Editor<RopeBuffer, H>,
    a: Editor<RopeBuffer, H>,
    area: (int, int),
    cell: (int, int),
) -> bool {
    let at = place_under(b.buffer.rows(), b.host.port().top_row as int, area, cell);
    let mode = b.vim.mode;
    let step = mode is Insert && b.settings.undo_break_on_motion;
    &&& rope::only_cursor_moved(b.buffer, a.buffer)
    &&& rope::buffer_cursor(a.buffer) == buffer::clamp(
        rope::buffer_lines(b.buffer),
        buffer_impl::as_place(buffer_impl::as_pos(at)),
    )
    &&& editing::entry_views(a.undo_stack@) == if step {
        editing::capped(
            editing::entry_views(b.undo_stack@).push(editing::entry_of(b.buffer)),
            b.settings.undo_levels as int,
        )
    } else {
        editing::entry_views(b.undo_stack@)
    }
    &&& if step {
        a.redo_stack@.len() == 0
    } else {
        a.redo_stack@ == b.redo_stack@
    }
    &&& a == (Editor {
        buffer: a.buffer,
        undo_stack: a.undo_stack,
        redo_stack: a.redo_stack,
        vim: VimState {
            mode: if mode is Insert {
                VimMode::Insert
            } else {
                VimMode::Normal
            },
            ..b.vim
        },
        ..b
    })
}

/// What a scroll by `delta` rows does.
pub open spec fn scrolled_by<H: Host>(
    b: Editor<RopeBuffer, H>,
    a: Editor<RopeBuffer, H>,
    delta: int,
) -> bool {
    let rows = b.buffer.rows();
    let v = b.host.port();
    let top = top_after_scroll(v.top_row as int, delta, rows.len() as int);
    let at = motions::cursor_place(b.buffer);
    let row = row_after_scroll(top, b.viewport_height as int, at.0);
    let col = text::min(at.1, motions::last_col(motions::line_at(rows, row)));
    if delta == 0 {
        a == b
    } else if b.viewport_height == 0 || row == at.0 {
        viewport_set(b, a, Viewport { top_row: top as usize, ..v })
    } else {
        &&& host_shows(b.host, a.host, Viewport { top_row: top as usize, ..v })
        &&& rope::only_cursor_moved(b.buffer, a.buffer)
        &&& rope::buffer_cursor(a.buffer) == buffer::clamp(
            rope::buffer_lines(b.buffer),
            buffer_impl::as_place(buffer_impl::as_pos((row, col))),
        )
        &&& a == (Editor { host: a.host, buffer: a.buffer, ..b })
    }
}

// ── Laws ────────────────────────────────────────────────────────────

/// After the viewport followed the cursor without soft wrap, the cursor is on
/// the screen. It keeps the margin from the top edge unless the text starts
/// there, and from the bottom edge unless the text ends there.
pub proof fn law_scrolloff_keeps_margin(top: int, cursor_row: int, last_row: int, height: int)
    requires
        0 <= top,
        0 <= cursor_row <= last_row,
        0 < height,
    ensures
        ({
            let t = scrolloff_top(top, cursor_row, last_row, height);
            let margin = margin_of(height);
            &&& 0 <= t <= cursor_row < t + height
            &&& t == 0 || t + margin <= cursor_row
            &&& cursor_row + margin < t + height || t + height > last_row
        }),
{
}

/// The top row that a pull leads to is no lower, and every way to it keeps the
/// place within the reach. It leaves the place below the margin, or a step
/// further up would take the place past the reach, or there is none.
proof fn lemma_pulled(
    rows: Seq<Seq<char>>,
    folds: Seq<(int, int, bool)>,
    v: Viewport,
    top: int,
    at: (int, int),
    margin: int,
    reach: int,
)
    requires
        0 <= top <= at.0,
        !buffer::hidden(folds, at.0),
    ensures
        ({
            let t = pulled_top(rows, folds, v, top, at, margin, reach);
            let here = viewport_math::screen_row(rows, folds, v, t, at)->0;
            &&& 0 <= t <= top
            &&& t == top || here <= reach
            &&& here >= margin || match buffer::prev_visible(folds, t) {
                Some(r) => viewport_math::screen_row(rows, folds, v, r, at)->0 > reach,
                None => true,
            }
        }),
    decreases top,
{
    crate::folds::law_prev_visible(folds, top);
    if let Some(r) = buffer::prev_visible(folds, top) {
        let here = viewport_math::screen_row(rows, folds, v, top, at)->0;
        let there = viewport_math::screen_row(rows, folds, v, r, at)->0;
        if here < margin && there <= reach {
            lemma_pulled(rows, folds, v, r, at, margin, reach);
        }
    }
}

/// The further up the top row, the further down the screen row of a place.
proof fn lemma_screen_row_falls(
    rows: Seq<Seq<char>>,
    folds: Seq<(int, int, bool)>,
    v: Viewport,
    a: int,
    b: int,
    at: (int, int),
)
    requires
        a <= b <= at.0,
        !buffer::hidden(folds, at.0),
    ensures
        viewport_math::screen_row(rows, folds, v, b, at)->0 <= viewport_math::screen_row(
            rows,
            folds,
            v,
            a,
            at,
        )->0,
{
    viewport_math::lemma_height_shrinks(rows, folds, v, a, b, at.0);
}

/// After the viewport followed the cursor under soft wrap, the screen row of a
/// cursor that no fold hides lies on the screen, or the cursor's row is the top
/// row (and takes more screen rows than there are). It keeps the margin from the
/// top edge unless the text starts there, or the next row above would take it
/// into the bottom margin. It keeps the margin from the bottom edge unless the
/// cursor's row is the top row, or the text ends on the screen. Blank rows
/// follow the text only where the cursor would leave the screen without them.
/// Here `full` is the last top row that leaves no blank rows.
pub proof fn law_wrapped_scrolloff_keeps_margin(
    rows: Seq<Seq<char>>,
    folds: Seq<(int, int, bool)>,
    v: Viewport,
    at: (int, int),
    height: int,
    full: int,
)
    requires
        0 <= at.0 < rows.len(),
        0 < height <= u16::MAX,
        motions::wraps_rows(v),
        !buffer::hidden(folds, at.0),
        viewport_math::is_max_top(rows, folds, v, height, full),
    ensures
        ({
            let t = wrapped_top(rows, folds, v, at, height);
            let margin = margin_of(height);
            let reach = height - 1 - margin;
            let here = viewport_math::screen_row(rows, folds, v, t, at);
            &&& 0 <= t <= at.0
            &&& here is Some
            &&& here->0 < height || t == at.0
            &&& here->0 >= margin || match buffer::prev_visible(folds, t) {
                Some(r) => viewport_math::screen_row(rows, folds, v, r, at)->0 > reach,
                None => true,
            }
            &&& here->0 <= reach || t == at.0 || t >= full
            &&& t > full ==> viewport_math::screen_row(rows, folds, v, full, at)->0 >= height
        }),
{
    let margin = margin_of(height);
    let reach = height - 1 - margin;
    let start = text::min(v.top_row as int, at.0);
    viewport_math::law_one_max_top(
        rows,
        folds,
        v,
        height,
        full,
        full_top(rows, folds, v, height),
    );
    let near = Viewport { height: (reach + 1) as u16, ..v };
    let down = top_within(rows, folds, v, start, at, reach + 1);
    viewport_math::lemma_top_shows(rows, folds, near, start, at);
    viewport_math::lemma_screen_row_same(rows, folds, near, v, down, at);
    lemma_pulled(rows, folds, v, down, at, margin, reach);
    let up = pulled_top(rows, folds, v, down, at, margin, reach);
    let t = wrapped_top(rows, folds, v, at, height);
    if up > full {
        let whole = Viewport { height: height as u16, ..v };
        let shown = top_within(rows, folds, v, full, at, height);
        viewport_math::lemma_top_shows(rows, folds, whole, full, at);
        viewport_math::lemma_screen_row_same(rows, folds, whole, v, shown, at);
        viewport_math::lemma_screen_row_same(rows, folds, whole, v, full, at);
        lemma_screen_row_falls(rows, folds, v, t, up, at);
        crate::folds::law_prev_visible(folds, up);
        crate::folds::law_prev_visible(folds, t);
        if let Some(r) = buffer::prev_visible(folds, up) {
            if t <= r {
                lemma_screen_row_falls(rows, folds, v, t, r, at);
            }
        }
    }
}

/// The viewport follows a cursor that it shows with the margin by staying where
/// it is.
pub proof fn law_scrolloff_stays(top: int, cursor_row: int, last_row: int, height: int)
    requires
        0 <= top <= cursor_row - margin_of(height),
        cursor_row + margin_of(height) < top + height,
        top + height <= last_row + 1,
        0 < height,
    ensures
        scrolloff_top(top, cursor_row, last_row, height) == top,
{
}

/// A scroll leaves the cursor on the screen, wherever it was: on a row between
/// the margins, or on the last row of the text where that comes before.
pub proof fn law_scroll_shows_cursor(
    top: int,
    delta: int,
    height: int,
    cursor_row: int,
    last_row: int,
)
    requires
        0 <= top,
        0 < height,
        0 <= cursor_row <= last_row,
    ensures
        ({
            let t = top_after_scroll(top, delta, last_row + 1);
            let row = text::min(row_after_scroll(t, height, cursor_row), last_row);
            &&& 0 <= t <= row < t + height
            &&& t + SCROLLOFF <= cursor_row < t + height - SCROLLOFF ==> row == cursor_row
        }),
{
}

/// Scrolling the row of the cursor to the middle, the top or the bottom leaves
/// it on the screen.
pub proof fn law_target_shows_cursor(row: int, height: int, target: CursorScrollTarget)
    requires
        0 <= row,
        0 < height,
    ensures
        0 <= top_for_target(row, height, target) <= row < top_for_target(row, height, target)
            + height,
{
}

} // verus!
