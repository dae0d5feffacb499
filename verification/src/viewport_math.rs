//! Viewport arithmetic: which screen row the cursor is on, and where the
//! viewport has to start to show it.
use vstd::prelude::*;

use crate::buffer;
use crate::buffer::{Position, Viewport, Wrap};
use crate::folds::FoldProvider;
use crate::motions;
use crate::rope;
use crate::surface::{Cursor, Query};

verus! {

/// How many screen rows a row takes: none where a fold hides it.
pub open spec fn row_height(
    rows: Seq<Seq<char>>,
    folds: Seq<(int, int, bool)>,
    v: Viewport,
    row: int,
) -> int {
    if buffer::hidden(folds, row) {
        0
    } else {
        motions::screen_rows(motions::line_at(rows, row), v).len() as int
    }
}

/// How many screen rows the rows from `from` up to `to` take.
pub open spec fn height_between(
    rows: Seq<Seq<char>>,
    folds: Seq<(int, int, bool)>,
    v: Viewport,
    from: int,
    to: int,
) -> int
    decreases to - from,
{
    if from >= to {
        0
    } else {
        height_between(rows, folds, v, from, to - 1) + row_height(rows, folds, v, to - 1)
    }
}

/// The screen row of a place, counted from the first screen row of `top`.
pub open spec fn screen_row(
    rows: Seq<Seq<char>>,
    folds: Seq<(int, int, bool)>,
    v: Viewport,
    top: int,
    at: (int, int),
) -> Option<int> {
    if at.0 < top || buffer::hidden(folds, at.0) {
        None
    } else {
        Some(
            height_between(rows, folds, v, top, at.0) + rope::segment_of(
                motions::screen_rows(motions::line_at(rows, at.0), v),
                at.1,
            ),
        )
    }
}

/// True when a place lies on the screen of a viewport whose top row is `top`.
pub open spec fn on_screen(
    rows: Seq<Seq<char>>,
    folds: Seq<(int, int, bool)>,
    v: Viewport,
    top: int,
    at: (int, int),
) -> bool {
    match screen_row(rows, folds, v, top, at) {
        Some(r) => r < v.height,
        None => false,
    }
}

/// The first visible row from `top` on that brings a place onto the screen, or
/// the row of the place itself.
pub open spec fn top_showing(
    rows: Seq<Seq<char>>,
    folds: Seq<(int, int, bool)>,
    v: Viewport,
    top: int,
    at: (int, int),
) -> int
    decreases at.0 - top,
{
    if on_screen(rows, folds, v, top, at) {
        top
    } else {
        match buffer::next_visible(folds, at.0 + 1, top) {
            Some(r) => if top < r <= at.0 {
                top_showing(rows, folds, v, r, at)
            } else {
                at.0
            },
            None => at.0,
        }
    }
}

/// The viewport moved to show a place.
pub open spec fn viewport_showing(
    rows: Seq<Seq<char>>,
    folds: Seq<(int, int, bool)>,
    v: Viewport,
    at: (int, int),
) -> Viewport {
    if !motions::wraps_rows(v) {
        v.showing(at)
    } else if v.height == 0 {
        v
    } else if at.0 < v.top_row {
        Viewport { top_row: at.0 as usize, top_col: 0, ..v }
    } else {
        Viewport {
            top_row: top_showing(rows, folds, v, v.top_row as int, at) as usize,
            top_col: 0,
            ..v
        }
    }
}

/// How many screen rows a row takes when it is not hidden.
fn height_of_row<B: Query>(buf: &B, v: &Viewport, row: usize) -> (n: usize)
    requires
        motions::wraps_rows(*v) ==> motions::rows_wrap(buf.rows(), *v),
    ensures
        n == motions::screen_rows(motions::line_at(buf.rows(), row as int), *v).len(),
        1 <= n <= motions::line_at(buf.rows(), row as int).len() + 1,
{
    if matches!(v.wrap, Wrap::Off) || v.text_width == 0 {
        return 1;
    }
    motions::read_segments(buf, v, row).len()
}

/// The screen row of the cursor, counted from the first screen row of `top`.
pub(crate) fn cursor_screen_row_from<B: Cursor, F: FoldProvider>(
    buf: &B,
    folds: &F,
    viewport: &Viewport,
    top: usize,
) -> (r: Option<u128>)
    requires
        motions::wraps_rows(*viewport) ==> motions::rows_wrap(buf.rows(), *viewport),
    ensures
        match r {
            Some(n) => screen_row(
                buf.rows(),
                folds.fold_list(),
                *viewport,
                top as int,
                motions::cursor_place(*buf),
            ) == Some(n as int),
            None => screen_row(
                buf.rows(),
                folds.fold_list(),
                *viewport,
                top as int,
                motions::cursor_place(*buf),
            ) is None,
        },
{
    let cursor = motions::read_cursor(buf);
    if cursor.row < top || folds.is_row_hidden(cursor.row) {
        return None;
    }
    let ghost rows = buf.rows();
    let ghost list = folds.fold_list();
    let mut total: u128 = 0;
    let mut r: usize = top;
    while r < cursor.row
        invariant
            motions::wraps_rows(*viewport) ==> motions::rows_wrap(buf.rows(), *viewport),
            rows == buf.rows(),
            list == folds.fold_list(),
            top <= r <= cursor.row,
            cursor.row <= u32::MAX,
            total == height_between(rows, list, *viewport, top as int, r as int),
            total <= (r - top) * 0x1_0000_0000_0000_0000,
        decreases cursor.row - r,
    {
        if !folds.is_row_hidden(r) {
            let n: usize = height_of_row(buf, viewport, r);
            total = total + n as u128;
        }
        r = r + 1;
    }
    let line = motions::read_line(buf, cursor.row);
    if matches!(viewport.wrap, Wrap::Off) || viewport.text_width == 0 {
        proof {
            motions::lemma_segment_of_in(
                motions::screen_rows(line@, *viewport),
                cursor.col as int,
            );
        }
        return Some(total);
    }
    let segs = motions::read_segments(buf, viewport, cursor.row);
    let i: usize = rope::segment_for_col(&segs, cursor.col);
    proof {
        motions::lemma_segment_of_in(segs@, cursor.col as int);
    }
    Some(total + i as u128)
}

/// The screen row of the cursor, counted from the top of the viewport; `None`
/// without soft wrap, above the viewport, and where a fold hides the row.
pub fn cursor_screen_row<B: Cursor, F: FoldProvider>(
    buf: &B,
    folds: &F,
    viewport: &Viewport,
) -> (r: Option<usize>)
    requires
        motions::wraps_rows(*viewport) ==> motions::rows_wrap(buf.rows(), *viewport),
    ensures
        r == match screen_row(
            buf.rows(),
            folds.fold_list(),
            *viewport,
            viewport.top_row as int,
            motions::cursor_place(*buf),
        ) {
            Some(n) => if motions::wraps_rows(*viewport) {
                Some(n as usize)
            } else {
                None
            },
            None => None,
        },
{
    if matches!(viewport.wrap, Wrap::Off) || viewport.text_width == 0 {
        return None;
    }
    match cursor_screen_row_from(buf, folds, viewport, viewport.top_row) {
        Some(n) => Some(n as usize),
        None => None,
    }
}

/// Moves the viewport as little as needed to show the cursor. Under soft wrap
/// the top moves one visible row at a time until the screen row of the cursor
/// lies on the screen.
pub fn ensure_cursor_visible<B: Cursor, F: FoldProvider>(
    buf: &B,
    folds: &F,
    viewport: &mut Viewport,
)
    requires
        motions::wraps_rows(*old(viewport)) ==> motions::rows_wrap(buf.rows(), *old(viewport)),
    ensures
        *final(viewport) == viewport_showing(
            buf.rows(),
            folds.fold_list(),
            *old(viewport),
            motions::cursor_place(*buf),
        ),
{
    let cursor = motions::read_cursor(buf);
    let v = *viewport;
    if matches!(v.wrap, Wrap::Off) || v.text_width == 0 {
        viewport.ensure_visible(Position::new(cursor.row, cursor.col));
        return;
    }
    if v.height == 0 {
        return;
    }
    if cursor.row < v.top_row {
        viewport.top_row = cursor.row;
        viewport.top_col = 0;
        return;
    }
    let ghost rows = buf.rows();
    let ghost list = folds.fold_list();
    let mut top: usize = v.top_row;
    let mut done = false;
    while !done
        invariant
            motions::rows_wrap(buf.rows(), v),
            motions::wraps_rows(v),
            rows == buf.rows(),
            list == folds.fold_list(),
            cursor.spot() == motions::cursor_place(*buf),
            top <= cursor.row,
            !done ==> top_showing(rows, list, v, v.top_row as int, cursor.spot()) == top_showing(
                rows,
                list,
                v,
                top as int,
                cursor.spot(),
            ),
            done ==> top_showing(rows, list, v, v.top_row as int, cursor.spot()) == top,
        decreases (if done { 0int } else { cursor.row - top + 1 }),
    {
        let on_screen = match cursor_screen_row_from(buf, folds, &v, top) {
            Some(r) => r < v.height as u128,
            None => false,
        };
        if on_screen {
            done = true;
        } else {
            let next: Option<usize> = next_shown_row(folds, top, cursor.row);
            proof {
                if next is Some {
                    crate::folds::law_next_visible(list, cursor.row + 1, top as int);
                }
            }
            match next {
                Some(r) => {
                    top = r;
                },
                None => {
                    top = cursor.row;
                    done = true;
                },
            }
        }
    }
    viewport.top_row = top;
    viewport.top_col = 0;
}

/// The first row after `row` and no further than `last` that no fold hides.
pub(crate) fn next_shown_row<F: FoldProvider>(folds: &F, row: usize, last: usize) -> (r: Option<
    usize,
>)
    ensures
        buffer::as_row(r) == buffer::next_visible(folds.fold_list(), last + 1, row as int),
{
    let mut r: usize = row;
    while r < last
        invariant
            buffer::next_visible(folds.fold_list(), last + 1, row as int) == buffer::next_visible(
                folds.fold_list(),
                last + 1,
                r as int,
            ),
        decreases last - r,
    {
        r = r + 1;
        if !folds.is_row_hidden(r) {
            return Some(r);
        }
    }
    None
}

/// The last row from which the rows down to the end fill a screen of `height`
/// screen rows, or 0 where the text is too short to fill it.
pub fn max_top_for_height<B: Query, F: FoldProvider>(
    buf: &B,
    folds: &F,
    viewport: &Viewport,
    height: usize,
) -> (top: usize)
    requires
        motions::wraps_rows(*viewport) ==> motions::rows_wrap(buf.rows(), *viewport),
    ensures
        height == 0 || buf.rows().len() == 0 ==> top == 0,
        height > 0 && buf.rows().len() > 0 ==> is_max_top(
            buf.rows(),
            folds.fold_list(),
            *viewport,
            height as int,
            top as int,
        ),
{
    let n: usize = motions::read_row_count(buf);
    if height == 0 || n == 0 {
        return 0;
    }
    let ghost rows = buf.rows();
    let ghost list = folds.fold_list();
    let mut missing: usize = height;
    let mut row: usize = n - 1;
    loop
        invariant
            motions::wraps_rows(*viewport) ==> motions::rows_wrap(buf.rows(), *viewport),
            rows == buf.rows(),
            list == folds.fold_list(),
            height > 0,
            n == rows.len(),
            row < n,
            0 < missing <= height,
            height_between(rows, list, *viewport, row + 1, n as int) == height - missing,
        decreases row,
    {
        proof {
            lemma_height_first(rows, list, *viewport, row as int, n as int);
        }
        if !folds.is_row_hidden(row) {
            let h: usize = height_of_row(buf, viewport, row);
            if h >= missing {
                return row;
            }
            missing = missing - h;
        }
        if row == 0 {
            return 0;
        }
        row = row - 1;
    }
}

/// `top` is the last row from which the rows down to the end take `height`
/// screen rows; it is 0 where not even all of them do.
pub open spec fn is_max_top(
    rows: Seq<Seq<char>>,
    folds: Seq<(int, int, bool)>,
    v: Viewport,
    height: int,
    top: int,
) -> bool {
    let n = rows.len() as int;
    &&& 0 <= top < n
    &&& height_between(rows, folds, v, top + 1, n) < height
    &&& top > 0 ==> height_between(rows, folds, v, top, n) >= height
}

/// The height of a range of rows splits at its first row.
proof fn lemma_height_first(
    rows: Seq<Seq<char>>,
    folds: Seq<(int, int, bool)>,
    v: Viewport,
    from: int,
    to: int,
)
    requires
        from < to,
    ensures
        height_between(rows, folds, v, from, to) == row_height(rows, folds, v, from)
            + height_between(rows, folds, v, from + 1, to),
    decreases to - from,
{
    if from + 1 < to {
        lemma_height_first(rows, folds, v, from, to - 1);
    } else {
        assert(height_between(rows, folds, v, from, to - 1) == 0);
    }
}

/// The rows from a later row on take no more screen rows.
pub proof fn lemma_height_shrinks(
    rows: Seq<Seq<char>>,
    folds: Seq<(int, int, bool)>,
    v: Viewport,
    from: int,
    later: int,
    to: int,
)
    requires
        from <= later,
    ensures
        height_between(rows, folds, v, later, to) <= height_between(rows, folds, v, from, to),
    decreases later - from,
{
    if from < to {
        lemma_height_first(rows, folds, v, from, to);
        if from < later {
            lemma_height_shrinks(rows, folds, v, from + 1, later, to);
        }
    }
}

/// There is only one last row from which the rows down to the end fill the
/// screen.
pub proof fn law_one_max_top(
    rows: Seq<Seq<char>>,
    folds: Seq<(int, int, bool)>,
    v: Viewport,
    height: int,
    a: int,
    b: int,
)
    requires
        is_max_top(rows, folds, v, height, a),
        is_max_top(rows, folds, v, height, b),
    ensures
        a == b,
{
    let n = rows.len() as int;
    if a < b {
        lemma_height_shrinks(rows, folds, v, a + 1, b, n);
    } else if b < a {
        lemma_height_shrinks(rows, folds, v, b + 1, a, n);
    }
}

/// Once the viewport was moved to show a place, the place is shown: without
/// soft wrap its row and its column lie inside, and with it either its screen
/// row does or its row is the top row.
pub proof fn law_cursor_is_shown(
    rows: Seq<Seq<char>>,
    folds: Seq<(int, int, bool)>,
    v: Viewport,
    at: (int, int),
)
    requires
        0 <= at.0 <= usize::MAX,
        0 <= at.1 <= usize::MAX,
        v.height > 0,
        motions::wraps_rows(v) || v.width > 0,
    ensures
        ({
            let w = viewport_showing(rows, folds, v, at);
            if motions::wraps_rows(v) {
                w.top_row == at.0 || on_screen(rows, folds, w, w.top_row as int, at)
            } else {
                &&& w.top_row <= at.0 < w.top_row + w.height
                &&& w.top_col <= at.1 < w.top_col + w.width
            }
        }),
{
    if motions::wraps_rows(v) && at.0 >= v.top_row {
        lemma_top_shows(rows, folds, v, v.top_row as int, at);
        let w = viewport_showing(rows, folds, v, at);
        lemma_screen_row_same(rows, folds, v, w, w.top_row as int, at);
    }
}

/// The top row that shows a place is on the way to it, brings it onto the
/// screen where one on the way does, and no earlier visible row does.
pub proof fn lemma_top_shows(
    rows: Seq<Seq<char>>,
    folds: Seq<(int, int, bool)>,
    v: Viewport,
    top: int,
    at: (int, int),
)
    requires
        0 <= top <= at.0,
    ensures
        top <= top_showing(rows, folds, v, top, at) <= at.0,
        top_showing(rows, folds, v, top, at) == at.0 || on_screen(
            rows,
            folds,
            v,
            top_showing(rows, folds, v, top, at),
            at,
        ),
        forall|t: int|
            top <= t < top_showing(rows, folds, v, top, at) && (t == top || !buffer::hidden(
                folds,
                t,
            )) ==> !(#[trigger] on_screen(rows, folds, v, t, at)),
    decreases at.0 - top,
{
    crate::folds::law_next_visible(folds, at.0 + 1, top);
    if !on_screen(rows, folds, v, top, at) {
        match buffer::next_visible(folds, at.0 + 1, top) {
            Some(r) => {
                lemma_top_shows(rows, folds, v, r, at);
            },
            None => {},
        }
    }
}

/// The screen row does not depend on where the viewport is.
pub proof fn lemma_screen_row_same(
    rows: Seq<Seq<char>>,
    folds: Seq<(int, int, bool)>,
    v: Viewport,
    w: Viewport,
    top: int,
    at: (int, int),
)
    requires
        v.wrap == w.wrap,
        v.text_width == w.text_width,
    ensures
        screen_row(rows, folds, v, top, at) == screen_row(rows, folds, w, top, at),
{
    lemma_height_same(rows, folds, v, w, top, at.0);
}

/// The height of a range of rows does not depend on where the viewport is.
proof fn lemma_height_same(
    rows: Seq<Seq<char>>,
    folds: Seq<(int, int, bool)>,
    v: Viewport,
    w: Viewport,
    from: int,
    to: int,
)
    requires
        v.wrap == w.wrap,
        v.text_width == w.text_width,
    ensures
        height_between(rows, folds, v, from, to) == height_between(rows, folds, w, from, to),
    decreases to - from,
{
    if from < to {
        lemma_height_same(rows, folds, v, w, from, to - 1);
    }
}

/// The top row that shows a place does not depend on where the viewport is.
pub proof fn lemma_top_same(
    rows: Seq<Seq<char>>,
    folds: Seq<(int, int, bool)>,
    v: Viewport,
    w: Viewport,
    top: int,
    at: (int, int),
)
    requires
        0 <= top,
        v.wrap == w.wrap,
        v.text_width == w.text_width,
        v.height == w.height,
    ensures
        top_showing(rows, folds, v, top, at) == top_showing(rows, folds, w, top, at),
    decreases at.0 - top,
{
    lemma_screen_row_same(rows, folds, v, w, top, at);
    if let Some(r) = buffer::next_visible(folds, at.0 + 1, top) {
        if top < r <= at.0 {
            lemma_top_same(rows, folds, v, w, r, at);
        }
    }
}

/// A viewport that shows a place already does not move.
pub proof fn law_shown_stays(
    rows: Seq<Seq<char>>,
    folds: Seq<(int, int, bool)>,
    v: Viewport,
    at: (int, int),
)
    requires
        if motions::wraps_rows(v) {
            v.top_col == 0 && on_screen(rows, folds, v, v.top_row as int, at)
        } else {
            &&& v.top_row <= at.0 < v.top_row + v.height
            &&& v.top_col <= at.1 < v.top_col + v.width
        },
    ensures
        viewport_showing(rows, folds, v, at) == v,
{
}

/// The viewport moves no further than a place asks for: without soft wrap no
/// window that shows the place starts closer to where the viewport was, and
/// with it no visible row before the new top row brings the place onto the
/// screen.
pub proof fn law_moves_no_further(
    rows: Seq<Seq<char>>,
    folds: Seq<(int, int, bool)>,
    v: Viewport,
    at: (int, int),
    t: int,
)
    requires
        0 <= at.0 <= usize::MAX,
        0 <= at.1 <= usize::MAX,
    ensures
        ({
            let w = viewport_showing(rows, folds, v, at);
            if motions::wraps_rows(v) {
                v.top_row <= t < w.top_row && (t == v.top_row || !buffer::hidden(folds, t))
                    ==> !on_screen(rows, folds, v, t, at)
            } else {
                &&& t <= at.0 < t + v.height ==> distance(w.top_row as int, v.top_row as int)
                    <= distance(t, v.top_row as int)
                &&& t <= at.1 < t + v.width ==> distance(w.top_col as int, v.top_col as int)
                    <= distance(t, v.top_col as int)
            }
        }),
{
    if motions::wraps_rows(v) && at.0 >= v.top_row {
        lemma_top_shows(rows, folds, v, v.top_row as int, at);
    }
}

/// How far apart two rows or columns lie.
pub open spec fn distance(a: int, b: int) -> int {
    if a < b {
        b - a
    } else {
        a - b
    }
}

} // verus!
