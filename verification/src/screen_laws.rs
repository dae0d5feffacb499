//! What the screen, the mouse and scrolling promise, in rows and cells.
use hjkl_buffer::Buffer as RopeBuffer;
use vstd::prelude::*;

use crate::buffer;
use crate::buffer::Viewport;
use crate::editing;
use crate::editor::Editor;
use crate::motions;
use crate::rope;
use crate::scrolling;
use crate::scrolling::CursorScrollTarget;
use crate::search;
use crate::surface::{Cursor, Query};
use crate::text;
use crate::types::Host;
use crate::view;
use crate::viewport_math;
use crate::VimMode;

verus! {

// ── Numbers ─────────────────────────────────────────────────────────

/// The number that a text of decimal digits stands for.
pub open spec fn value_of(s: Seq<char>) -> int
    decreases s.len(),
{
    if s.len() == 0 {
        0
    } else {
        10 * value_of(s.drop_last()) + (s.last() as int - '0' as int)
    }
}

/// Ten to the power of `n`.
pub open spec fn power_of_ten(n: int) -> int
    decreases n,
{
    if n <= 0 {
        1
    } else {
        10 * power_of_ten(n - 1)
    }
}

/// A number is written in decimal digits that stand for it, without a zero in
/// front unless it is zero.
pub proof fn law_digits_stand_for_the_number(n: nat)
    ensures
        ({
            let s = text::digits(n);
            &&& s.len() > 0
            &&& forall|i: int| 0 <= i < s.len() ==> '0' <= #[trigger] s[i] <= '9'
            &&& value_of(s) == n
            &&& n > 0 ==> s[0] != '0'
            &&& n == 0 ==> s == seq!['0']
            &&& n > 0 ==> power_of_ten(s.len() - 1) <= n < power_of_ten(s.len() as int)
        }),
    decreases n,
{
    let s = text::digits(n);
    if n < 10 {
        assert(s.drop_last() =~= Seq::<char>::empty());
        assert(value_of(s.drop_last()) == 0);
        assert(power_of_ten(0) == 1);
        assert(power_of_ten(1) == 10 * power_of_ten(0));
    } else {
        law_digits_stand_for_the_number(n / 10);
        assert(s.drop_last() =~= text::digits(n / 10));
        let k = text::digits(n / 10).len() as int;
        assert(power_of_ten(k) == 10 * power_of_ten(k - 1));
        assert(power_of_ten(k + 1) == 10 * power_of_ten(k));
    }
}

/// A negative number is written with a minus sign before the digits of its
/// magnitude, and any other without a sign.
pub proof fn law_sign_of_a_number(n: int)
    ensures
        n < 0 ==> text::decimal(n).len() > 0 && text::decimal(n)[0] == '-' && value_of(
            text::decimal(n).skip(1),
        ) == -n,
        n >= 0 ==> value_of(text::decimal(n)) == n && text::decimal(n)[0] != '-',
{
    if n < 0 {
        law_digits_stand_for_the_number((-n) as nat);
        assert(text::decimal(n).skip(1) =~= text::digits((-n) as nat));
    } else {
        law_digits_stand_for_the_number(n as nat);
        assert('0' <= text::digits(n as nat)[0] <= '9');
    }
}

/// The gutter has room for the number of the last row and for two blanks, and no
/// more.
pub proof fn law_gutter_fits_the_last_number(rows: nat)
    requires
        rows > 0,
    ensures
        ({
            let w = scrolling::gutter_width(rows as int);
            w >= 3 && power_of_ten(w - 3) <= rows < power_of_ten(w - 2)
        }),
{
    law_digits_stand_for_the_number(rows);
}

// ── The mouse ───────────────────────────────────────────────────────

/// The text starts one cell below and one cell to the right of the corner of the
/// mouse area, behind the gutter. A cell `down` rows and `right` columns into the
/// text lies over the row of the text that is shown there, `down` rows below the
/// top of the viewport, and over the character in that column; below the text it
/// counts as the last row, and behind a line as its last character.
pub proof fn law_mouse_hits_what_is_shown(
    rows: Seq<Seq<char>>,
    top: int,
    area: (int, int),
    down: int,
    right: int,
)
    requires
        rows.len() > 0,
        0 <= top,
        0 <= down,
        0 <= right,
    ensures
        ({
            let cell = (
                area.0 + 1 + scrolling::gutter_width(rows.len() as int) + right,
                area.1 + 1 + down,
            );
            let at = scrolling::place_under(rows, top, area, cell);
            &&& top + down < rows.len() ==> at.0 == top + down
            &&& top + down >= rows.len() ==> at.0 == rows.len() - 1
            &&& right < rows[at.0].len() ==> at.1 == right
            &&& right >= rows[at.0].len() && rows[at.0].len() > 0 ==> at.1 == rows[at.0].len() - 1
            &&& rows[at.0].len() == 0 ==> at.1 == 0
        }),
{
}

/// A cell above the text counts as its first row on the screen, and one to the
/// left of it as the first column.
pub proof fn law_mouse_outside_the_text(
    rows: Seq<Seq<char>>,
    top: int,
    area: (int, int),
    cell: (int, int),
)
    requires
        0 <= top < rows.len(),
    ensures
        cell.1 <= area.1 + 1 ==> scrolling::place_under(rows, top, area, cell).0 == top,
        cell.0 <= area.0 + 1 + scrolling::gutter_width(rows.len() as int)
            ==> scrolling::place_under(rows, top, area, cell).1 == 0,
{
}

/// A click is the inverse of drawing: a click on the cell where a character is
/// drawn (one cell further down and to the right, where the mouse area has its
/// corner) goes back to that character. The viewport must not be scrolled
/// sideways.
pub proof fn law_click_is_the_inverse_of_drawing(
    rows: Seq<Seq<char>>,
    v: Viewport,
    at: (int, int),
    area: (int, int),
    size: (int, int),
)
    requires
        0 <= at.0 < rows.len(),
        0 <= at.1 < rows[at.0].len(),
        v.top_col == 0,
        scrolling::screen_spot(rows.len() as int, v, at, area, size) is Some,
    ensures
        ({
            let spot = scrolling::screen_spot(rows.len() as int, v, at, area, size)->0;
            scrolling::place_under(
                rows,
                v.top_row as int,
                area,
                (spot.0 + 1, spot.1 + 1),
            ) == at
        }),
{
}

/// A click puts the cursor on the row of the text that the viewport shows at the
/// clicked row of the screen, no further than the last row, and on the character
/// under the mouse. Nothing else of the text changes.
pub proof fn law_click_goes_to_the_row_shown<H: Host>(
    b: Editor<RopeBuffer, H>,
    a: Editor<RopeBuffer, H>,
    area: (int, int),
    down: int,
    right: int,
)
    requires
        ({
            let gutter = scrolling::gutter_width(b.buffer.rows().len() as int);
            scrolling::clicked(b, a, area, (area.0 + 1 + gutter + right, area.1 + 1 + down))
        }),
        0 <= down,
        0 <= right <= u32::MAX,
        0 < rope::buffer_lines(b.buffer).len() <= u32::MAX,
        forall|i: int|
            0 <= i < rope::buffer_lines(b.buffer).len() ==> (#[trigger] rope::buffer_lines(
                b.buffer,
            )[i]).len() <= u32::MAX,
    ensures
        ({
            let lines = rope::buffer_lines(b.buffer);
            let row = a.buffer.at().line as int;
            let col = a.buffer.at().col as int;
            let aim = b.host.port().top_row + down;
            &&& rope::buffer_lines(a.buffer) == lines
            &&& aim < lines.len() ==> row == aim
            &&& aim >= lines.len() ==> row == lines.len() - 1
            &&& right < lines[row].len() ==> col == right
            &&& right >= lines[row].len() && lines[row].len() > 0 ==> col == lines[row].len() - 1
            &&& lines[row].len() == 0 ==> col == 0
            &&& a.host == b.host
            &&& b.vim.mode is Insert ==> a.vim.mode is Insert
            &&& !(b.vim.mode is Insert) ==> a.vim.mode is Normal
        }),
{
    assert(b.buffer.rows() =~= rope::buffer_lines(b.buffer));
    law_mouse_hits_what_is_shown(
        b.buffer.rows(),
        b.host.port().top_row as int,
        area,
        down,
        right,
    );
}

/// A place is drawn in an area exactly where the viewport and the area have room
/// for it: as many rows below the corner as it lies below the top row, and as many
/// columns behind the gutter as it lies behind the first column shown.
pub proof fn law_place_is_drawn_where_it_is_shown(
    rows: nat,
    v: Viewport,
    at: (int, int),
    area: (int, int),
    size: (int, int),
)
    requires
        0 <= at.0,
        0 <= at.1,
    ensures
        match scrolling::screen_spot(rows as int, v, at, area, size) {
            Some((x, y)) => {
                &&& y - area.1 == at.0 - v.top_row
                &&& x - area.0 - text::digits(rows).len() - 2 == at.1 - v.top_col
                &&& area.1 <= y < area.1 + size.1
                &&& area.0 <= x < area.0 + size.0
                &&& v.top_row <= at.0
                &&& v.top_col <= at.1
            },
            None => {
                ||| at.0 < v.top_row
                ||| at.1 < v.top_col
                ||| at.0 >= v.top_row + size.1
                ||| at.1 + text::digits(rows).len() + 2 >= v.top_col + size.0
            },
        },
{
}

// ── Scrolling ───────────────────────────────────────────────────────

/// The margin is five rows on a screen that has room for them on both sides of a
/// row, and else as many as leave a row between the margins.
pub proof fn law_margin(height: int)
    requires
        0 < height,
    ensures
        ({
            let m = scrolling::margin_of(height);
            &&& 0 <= m
            &&& 2 * m < height
            &&& height >= 11 ==> m == 5
            &&& height < 11 ==> 2 * m + 2 >= height
        }),
{
}

/// A scroll moves the top of the viewport by the rows asked for, as far as there
/// are rows, and two scrolls move it as one by both does where neither comes to
/// an end of the text.
pub proof fn law_scroll_moves_the_top(top: int, delta: int, more: int, rows: int)
    requires
        0 <= top < rows,
    ensures
        ({
            let t = scrolling::top_after_scroll(top, delta, rows);
            &&& 0 <= t < rows
            &&& 0 <= top + delta < rows ==> t - top == delta
            &&& top + delta < 0 ==> t == 0
            &&& top + delta >= rows ==> t == rows - 1
            &&& 0 <= top + delta < rows ==> scrolling::top_after_scroll(t, more, rows)
                == scrolling::top_after_scroll(top, delta + more, rows)
        }),
{
}

/// A scroll leaves the cursor on its row where that keeps the margin, and else
/// takes it to the nearest row that does, in the same column as far as that row
/// reaches. The viewport moves as asked, and the text stays as it is.
pub proof fn law_scroll<H: Host>(b: Editor<RopeBuffer, H>, a: Editor<RopeBuffer, H>, delta: int)
    requires
        scrolling::scrolled_by(b, a, delta),
        delta != 0,
        b.viewport_height > 0,
        rope::buffer_lines(b.buffer).len() <= 0x7fff_ffff,
        b.host.port().top_row < rope::buffer_lines(b.buffer).len(),
        b.buffer.at().line < rope::buffer_lines(b.buffer).len(),
        rope::buffer_cursor(b.buffer).0 <= u32::MAX,
    ensures
        rope::buffer_lines(a.buffer) == rope::buffer_lines(b.buffer),
        ({
            let n = rope::buffer_lines(b.buffer).len() as int;
            let top = b.host.port().top_row as int;
            let now = a.host.port().top_row as int;
            let h = b.viewport_height as int;
            let m = if h >= 10 {
                5
            } else {
                h / 2
            };
            let row = b.buffer.at().line as int;
            let to = a.buffer.at().line as int;
            let last = n - 1;
            &&& 0 <= top + delta <= last ==> now - top == delta
            &&& top + delta < 0 ==> now == 0
            &&& top + delta > last ==> now == last
            &&& now + m <= row && row + m < now + h ==> to == row
            &&& row < now + m ==> to == if now + m <= last {
                now + m
            } else {
                last
            }
            &&& row >= now + m && row + m >= now + h ==> to == if now + h - 1 - m >= now + m {
                now + h - 1 - m
            } else {
                now + m
            }
        }),
{
    assert(b.buffer.rows() =~= rope::buffer_lines(b.buffer));
}

/// `zz`, `zt` and `zb` leave the cursor's row in the middle of the screen, below
/// the margin at its top, or above the margin at its bottom, unless the text
/// starts on the screen.
pub proof fn law_target_rows(row: int, height: int)
    requires
        0 <= row,
        0 < height,
    ensures
        ({
            let m = if height >= 11 {
                5
            } else {
                (height - 1) / 2
            };
            let c = scrolling::top_for_target(row, height, CursorScrollTarget::Center);
            let t = scrolling::top_for_target(row, height, CursorScrollTarget::Top);
            let e = scrolling::top_for_target(row, height, CursorScrollTarget::Bottom);
            &&& row >= height / 2 ==> row - c == height / 2
            &&& row < height / 2 ==> c == 0
            &&& row >= m ==> row - t == m
            &&& row < m ==> t == 0
            &&& row >= height - 1 - m ==> e + height - 1 - row == m
            &&& row < height - 1 - m ==> e == 0
        }),
{
}

/// A window that shows a line and moves as little as it can: it contains the
/// line, it does not move where it contained it already, and else it ends at the
/// line or starts there.
pub proof fn law_window_moves_as_little_as_it_can(top: int, size: int, at: int)
    requires
        0 < size,
    ensures
        ({
            let t = buffer::scrolled(top, size, at);
            &&& t <= at < t + size
            &&& top <= at < top + size ==> t == top
            &&& at < top ==> t == at
            &&& at >= top + size ==> t + size == at + 1
        }),
{
}

/// Without soft wrap the viewport follows the cursor so that the cursor keeps the
/// margin from both edges, unless the text starts or ends on the screen, and so
/// that its column is shown. A height of zero says that nothing was drawn yet.
pub proof fn law_viewport_follows(b: RopeBuffer, v: Viewport, height: int)
    requires
        !motions::wraps_rows(v),
        0 < height <= u16::MAX,
        v.height == height,
        v.width > 0,
        0 < rope::buffer_lines(b).len() <= u32::MAX,
        b.at().line < rope::buffer_lines(b).len(),
    ensures
        ({
            let w = scrolling::viewport_following(b, v, height);
            let n = rope::buffer_lines(b).len() as int;
            let row = b.at().line as int;
            let col = b.at().col as int;
            let m = if height >= 11 {
                5
            } else {
                (height - 1) / 2
            };
            &&& w.top_row <= row < w.top_row + height
            &&& w.top_col <= col < w.top_col + v.width
            &&& w.top_row == 0 || row >= w.top_row + m
            &&& row + m < w.top_row + height || w.top_row + height >= n
            &&& (v.top_row + m <= row && row + m < v.top_row + height && v.top_row + height <= n)
                ==> w.top_row == v.top_row
        }),
{
    assert(b.rows() =~= rope::buffer_lines(b));
}

/// A click while text is inserted makes what was typed so far an undo step, where
/// the settings ask for that, and there is nothing to redo then; any other click
/// leaves both histories alone.
pub proof fn law_click_may_break_undo<H: Host>(
    b: Editor<RopeBuffer, H>,
    a: Editor<RopeBuffer, H>,
    area: (int, int),
    cell: (int, int),
)
    requires
        scrolling::clicked(b, a, area, cell),
    ensures
        ({
            let was = editing::entry_views(b.undo_stack@);
            let now = editing::entry_views(a.undo_stack@);
            let breaks = b.vim.mode == VimMode::Insert && b.settings.undo_break_on_motion;
            &&& breaks ==> now.len() > 0 && now.last() == editing::entry_of(b.buffer)
                && a.redo_stack@.len() == 0
            &&& breaks && b.settings.undo_levels == 0 ==> now == was.push(
                editing::entry_of(b.buffer),
            )
            &&& breaks && b.settings.undo_levels > was.len() ==> now == was.push(
                editing::entry_of(b.buffer),
            )
            &&& !breaks ==> now == was && a.redo_stack@ == b.redo_stack@
        }),
        a.registers == b.registers && a.marks == b.marks && a.settings == b.settings,
        a.content_dirty == b.content_dirty,
{
}

/// Line and column numbers count from 1: the cursor goes to the line and to the
/// character of that number, and past the last to the last line and to the end of
/// the line. Zero stands for 1.
pub proof fn law_numbers_count_from_one(rows: Seq<Seq<char>>, line: usize, col: usize)
    requires
        rows.len() > 0,
    ensures
        ({
            let p = scrolling::place_numbered(rows, line, col);
            &&& p.0 == scrolling::line_numbered(rows, line)
            &&& 1 <= line <= rows.len() ==> p.0 + 1 == line
            &&& line > rows.len() ==> p.0 + 1 == rows.len()
            &&& line == 0 ==> p.0 == 0
            &&& 1 <= col <= rows[p.0].len() ==> p.1 + 1 == col
            &&& col > rows[p.0].len() ==> p.1 == rows[p.0].len()
            &&& col == 0 ==> p.1 == 0
        }),
{
}

/// A drag begins a charwise selection at the cursor, of one character so far, and
/// keeps one that is there. The text, the cursor and the histories stay.
pub proof fn law_drag_starts_at_the_cursor<H: Host>(
    b: Editor<RopeBuffer, H>,
    a: Editor<RopeBuffer, H>,
)
    requires
        scrolling::drag_begun(b, a),
    ensures
        a.vim.mode == VimMode::Visual,
        a.buffer == b.buffer && a.undo_stack == b.undo_stack && a.registers == b.registers,
        b.vim.mode == VimMode::Visual ==> a == b,
        b.vim.mode != VimMode::Visual ==> {
            let c = (b.buffer.at().line as usize, b.buffer.at().col as usize);
            view::chars_selected(a) == Some((c, c))
        },
{
}

/// A search goes around the end of the text only where both the search and the
/// settings let it; where either does not, it stops short of that. A search that
/// comes to a match sends the cursor there, and one that does not leaves everything
/// as it is.
pub proof fn law_search_goes_around_where_both_agree<H: Host>(
    b: Editor<RopeBuffer, H>,
    a: Editor<RopeBuffer, H>,
    forward: bool,
    skip: bool,
    found: bool,
)
    requires
        scrolling::search_went(b, a, forward, skip, found),
    ensures
        ({
            let both = b.search_state.wrap_around && b.settings.wrapscan;
            let around = search::search_target(
                b.buffer,
                b.search_state.pattern,
                true,
                forward,
                skip,
            );
            let short = search::search_target(
                b.buffer,
                b.search_state.pattern,
                false,
                forward,
                skip,
            );
            &&& both ==> (found <==> around is Some)
            &&& !both ==> (found <==> short is Some)
            &&& found ==> a.buffer.at() == b.buffer.placed(
                if both {
                    around->0
                } else {
                    short->0
                },
            ) && rope::buffer_lines(a.buffer) == rope::buffer_lines(b.buffer)
            &&& !found ==> a == b
        }),
{
}

/// The window that follows the cursor without soft wrap shows no blank rows below
/// the text, unless it starts with the first row.
pub proof fn law_no_blank_rows_below(top: int, row: int, last: int, height: int)
    requires
        0 <= row <= last,
        0 <= top,
        0 < height,
    ensures
        ({
            let t = scrolling::scrolloff_top(top, row, last, height);
            0 <= t && (t == 0 || t + height <= last + 1)
        }),
{
}

/// Under soft wrap nothing is scrolled off to the left; nothing but the top row and
/// the left column of a viewport moves with the cursor.
pub proof fn law_only_the_corner_moves(
    rows: Seq<Seq<char>>,
    folds: Seq<(int, int, bool)>,
    v: Viewport,
    at: (int, int),
)
    ensures
        ({
            let w = viewport_math::viewport_showing(rows, folds, v, at);
            &&& w == (Viewport { top_row: w.top_row, top_col: w.top_col, ..v })
            &&& motions::wraps_rows(v) && v.height > 0 ==> w.top_col == 0
        }),
{
}

/// Under soft wrap too, the window that follows a cursor which it shows with the
/// margin stays where it is, as long as it shows no blank rows below the text.
pub proof fn law_wrapped_window_stays(
    rows: Seq<Seq<char>>,
    folds: Seq<(int, int, bool)>,
    v: Viewport,
    at: (int, int),
    height: int,
    full: int,
)
    requires
        0 <= at.0 < rows.len(),
        0 < height <= u16::MAX,
        v.top_row <= at.0,
        !buffer::hidden(folds, at.0),
        viewport_math::is_max_top(rows, folds, v, height, full),
        v.top_row <= full,
        ({
            let m = if height >= 11 {
                5
            } else {
                (height - 1) / 2
            };
            let here = viewport_math::screen_row(rows, folds, v, v.top_row as int, at);
            here is Some && m <= here->0 && here->0 + m < height
        }),
    ensures
        scrolling::wrapped_top(rows, folds, v, at, height) == v.top_row,
{
    let margin = scrolling::margin_of(height);
    let reach = height - 1 - margin;
    let near = Viewport { height: (reach + 1) as u16, ..v };
    viewport_math::lemma_screen_row_same(rows, folds, near, v, v.top_row as int, at);
    viewport_math::law_one_max_top(
        rows,
        folds,
        v,
        height,
        full,
        scrolling::full_top(rows, folds, v, height),
    );
}

} // verus!
