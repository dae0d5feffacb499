//! Cursor motions over any store.
//!
//! Every motion computes a place from the rows and the cursor and sends the
//! cursor there. The spec functions of this module name that place; what the
//! store does with a place outside its text is up to [`Cursor::placed`].
use vstd::prelude::*;

use crate::buffer;
use crate::buffer::{Position, Viewport, Wrap};
use crate::buffer_impl;
use crate::folds::FoldProvider;
use crate::rope;
use crate::surface::{Cursor, Query};
use crate::text;
use crate::types::Pos;

verus! {

// ── Model ───────────────────────────────────────────────────────────

/// Row `row`, or an empty line where there is no such row.
pub open spec fn line_at(rows: Seq<Seq<char>>, row: int) -> Seq<char> {
    if 0 <= row < rows.len() {
        rows[row]
    } else {
        Seq::<char>::empty()
    }
}

/// The last column of a line, 0 for an empty one.
pub open spec fn last_col(line: Seq<char>) -> int {
    text::max(line.len() - 1, 0)
}

/// The last row, 0 where there is none.
pub open spec fn last_row(rows: Seq<Seq<char>>) -> int {
    text::max(rows.len() - 1, 0)
}

/// A count as a motion takes it: 0 counts once.
pub open spec fn at_least_once(count: usize) -> int {
    text::max(count as int, 1)
}

/// Where the cursor of a store is.
pub open spec fn cursor_place<B: Cursor>(b: B) -> (int, int) {
    buffer_impl::as_place(b.at())
}

/// The rows are as they were, and so is where the cursor can be put.
pub open spec fn same_store<B: Cursor>(b: B, a: B) -> bool {
    &&& a.rows() == b.rows()
    &&& forall|p: Pos| #[trigger] a.placed(p) == b.placed(p)
}

/// The cursor was sent to a place, and nothing else happened.
pub open spec fn sent<B: Cursor>(b: B, a: B, to: (int, int)) -> bool {
    &&& a.at() == b.placed(buffer_impl::as_pos(to))
    &&& same_store(b, a)
}

/// The first column of a line that holds no blank, or 0.
pub open spec fn first_non_blank(line: Seq<char>) -> int {
    let i = buffer::first_where(line, |c: char| !text::white_space(c));
    if i < line.len() {
        i
    } else {
        0
    }
}

/// The last column of a line that holds no blank, or 0.
pub open spec fn last_non_blank(line: Seq<char>) -> int
    decreases line.len(),
{
    if line.len() == 0 {
        0
    } else if !text::white_space(line.last()) {
        line.len() - 1
    } else {
        last_non_blank(line.drop_last())
    }
}

/// The cursor was sent to the start of `row`, and from the row where it came
/// to rest to the first column there that holds no blank.
pub open spec fn sent_to_row<B: Cursor>(b: B, a: B, row: int) -> bool {
    let rest = b.placed(buffer_impl::as_pos((row, 0int))).line as int;
    sent(b, a, (rest, first_non_blank(line_at(b.rows(), rest))))
}

// ── Reading and writing through the traits ──────────────────────────

pub(crate) fn read_cursor<B: Cursor>(buf: &B) -> (p: Position)
    ensures
        p.spot() == cursor_place(*buf),
{
    let p = buf.cursor();
    Position { row: p.line as usize, col: p.col as usize }
}

fn write_cursor<B: Cursor>(buf: &mut B, p: Position)
    ensures
        sent(*old(buf), *final(buf), p.spot()),
{
    buf.set_cursor(Pos { line: p.row as u32, col: p.col as u32 });
}

pub(crate) fn read_row_count<B: Query>(buf: &B) -> (n: usize)
    ensures
        n == buf.rows().len(),
        n <= u32::MAX,
{
    buf.line_count() as usize
}

/// Row `row`, or an empty line where there is no such row.
pub(crate) fn read_line<B: Query>(buf: &B, row: usize) -> (s: &str)
    ensures
        s@ == line_at(buf.rows(), row as int),
{
    let n: u32 = buf.line_count();
    if row >= n as usize {
        proof {
            reveal_strlit("");
            assert(""@ =~= Seq::<char>::empty());
        }
        return "";
    }
    buf.line(row as u32)
}

fn last_col_of(line: &str) -> (c: usize)
    ensures
        c == last_col(line@),
{
    let n: usize = text::char_count(line);
    if n == 0 {
        0
    } else {
        n - 1
    }
}

fn once_or_more(count: usize) -> (n: usize)
    ensures
        n == at_least_once(count),
{
    if count == 0 {
        1
    } else {
        count
    }
}

// ── Horizontal motions ──────────────────────────────────────────────

/// `h`: left, no further than column 0.
pub fn move_left<B: Cursor>(buf: &mut B, count: usize)
    ensures
        sent(
            *old(buf),
            *final(buf),
            (
                cursor_place(*old(buf)).0,
                text::max(cursor_place(*old(buf)).1 - at_least_once(count), 0),
            ),
        ),
{
    let cursor = read_cursor(buf);
    let n: usize = once_or_more(count);
    let col: usize = if cursor.col > n {
        cursor.col - n
    } else {
        0
    };
    write_cursor(buf, Position::new(cursor.row, col));
}

/// `l`: right, no further than the last character.
pub fn move_right_in_line<B: Cursor>(buf: &mut B, count: usize)
    ensures
        sent(
            *old(buf),
            *final(buf),
            (
                cursor_place(*old(buf)).0,
                text::min(
                    cursor_place(*old(buf)).1 + at_least_once(count),
                    last_col(line_at(old(buf).rows(), cursor_place(*old(buf)).0)),
                ),
            ),
        ),
{
    let cursor = read_cursor(buf);
    let limit: usize = last_col_of(read_line(buf, cursor.row));
    let col: usize = text::advance(cursor.col, once_or_more(count), limit);
    write_cursor(buf, Position::new(cursor.row, col));
}

/// `l` for operators: right, no further than one past the last character.
pub fn move_right_to_end<B: Cursor>(buf: &mut B, count: usize)
    ensures
        sent(
            *old(buf),
            *final(buf),
            (
                cursor_place(*old(buf)).0,
                text::min(
                    cursor_place(*old(buf)).1 + at_least_once(count),
                    line_at(old(buf).rows(), cursor_place(*old(buf)).0).len() as int,
                ),
            ),
        ),
{
    let cursor = read_cursor(buf);
    let limit: usize = text::char_count(read_line(buf, cursor.row));
    let col: usize = text::advance(cursor.col, once_or_more(count), limit);
    write_cursor(buf, Position::new(cursor.row, col));
}

/// `0`: column 0.
pub fn move_line_start<B: Cursor>(buf: &mut B)
    ensures
        sent(*old(buf), *final(buf), (cursor_place(*old(buf)).0, 0int)),
{
    let row: usize = read_cursor(buf).row;
    write_cursor(buf, Position::new(row, 0));
}

fn first_non_blank_of(line: &str) -> (c: usize)
    ensures
        c == first_non_blank(line@),
{
    let v = text::chars_of(line);
    let ghost p = |c: char| !text::white_space(c);
    let mut i: usize = 0;
    while i < v.len()
        invariant
            v@ == line@,
            i <= v.len(),
            p == (|c: char| !text::white_space(c)),
            forall|k: int| 0 <= k < i ==> !p(#[trigger] line@[k]),
        decreases v.len() - i,
    {
        if !text::is_white_space(v[i]) {
            proof {
                buffer::lemma_first_where(line@, p, i as int);
            }
            return i;
        }
        i = i + 1;
    }
    proof {
        buffer::lemma_first_where(line@, p, i as int);
    }
    0
}

/// `^`: the first column that holds no blank; column 0 on a blank line.
pub fn move_first_non_blank<B: Cursor>(buf: &mut B)
    ensures
        sent(
            *old(buf),
            *final(buf),
            (
                cursor_place(*old(buf)).0,
                first_non_blank(line_at(old(buf).rows(), cursor_place(*old(buf)).0)),
            ),
        ),
{
    let row: usize = read_cursor(buf).row;
    let col: usize = first_non_blank_of(read_line(buf, row));
    write_cursor(buf, Position::new(row, col));
}

/// `$`: the last character; column 0 on an empty line.
pub fn move_line_end<B: Cursor>(buf: &mut B)
    ensures
        sent(
            *old(buf),
            *final(buf),
            (
                cursor_place(*old(buf)).0,
                last_col(line_at(old(buf).rows(), cursor_place(*old(buf)).0)),
            ),
        ),
{
    let row: usize = read_cursor(buf).row;
    let col: usize = last_col_of(read_line(buf, row));
    write_cursor(buf, Position::new(row, col));
}

/// `g_`: the last character that is no blank; column 0 on a blank line.
pub fn move_last_non_blank<B: Cursor>(buf: &mut B)
    ensures
        sent(
            *old(buf),
            *final(buf),
            (
                cursor_place(*old(buf)).0,
                last_non_blank(line_at(old(buf).rows(), cursor_place(*old(buf)).0)),
            ),
        ),
{
    let row: usize = read_cursor(buf).row;
    let v = text::chars_of(read_line(buf, row));
    let ghost line = v@;
    let mut n: usize = v.len();
    assert(line.take(n as int) =~= line);
    while n > 0 && text::is_white_space(v[n - 1])
        invariant
            v@ == line,
            n <= v.len(),
            last_non_blank(line) == last_non_blank(line.take(n as int)),
        decreases n,
    {
        n = n - 1;
        assert(line.take(n + 1).drop_last() =~= line.take(n as int));
    }
    let col: usize = if n == 0 {
        0
    } else {
        n - 1
    };
    write_cursor(buf, Position::new(row, col));
}

// ── Paragraphs ──────────────────────────────────────────────────────

/// Going up from `r` while the rows are empty, or while they are not.
pub open spec fn up_while(rows: Seq<Seq<char>>, r: int, empty: bool) -> int
    decreases r,
{
    if 0 < r < rows.len() && (rows[r].len() == 0) == empty {
        up_while(rows, r - 1, empty)
    } else {
        r
    }
}

/// Going down from `r` to the last row while the rows are empty, or while they
/// are not.
pub open spec fn down_while(rows: Seq<Seq<char>>, r: int, empty: bool) -> int
    decreases rows.len() - r,
{
    if 0 <= r < rows.len() - 1 && (rows[r].len() == 0) == empty {
        down_while(rows, r + 1, empty)
    } else {
        r
    }
}

/// True when a row is there and is empty.
pub open spec fn blank_row(rows: Seq<Seq<char>>, row: int) -> bool {
    0 <= row < rows.len() && rows[row].len() == 0
}

/// The row that `{` leads to: the nearest empty row above, or the first row.
/// From an empty row it first leaves the empty rows around it.
pub open spec fn paragraph_above(rows: Seq<Seq<char>>, row: int) -> int {
    let from = if blank_row(rows, row) {
        up_while(rows, row - 1, true)
    } else {
        row - 1
    };
    up_while(rows, from, false)
}

/// The row that `}` leads to: the nearest empty row below, or the last row.
/// From an empty row it first leaves the empty rows around it.
pub open spec fn paragraph_below(rows: Seq<Seq<char>>, row: int) -> int {
    let from = if blank_row(rows, row) {
        down_while(rows, row + 1, true)
    } else {
        row + 1
    };
    down_while(rows, from, false)
}

/// The row that `n` steps of `{` lead to.
pub open spec fn paragraph_up(rows: Seq<Seq<char>>, row: int, n: nat) -> int
    decreases n,
{
    if n == 0 || row <= 0 {
        row
    } else {
        paragraph_up(rows, paragraph_above(rows, row), (n - 1) as nat)
    }
}

/// The row that `n` steps of `}` lead to.
pub open spec fn paragraph_down(rows: Seq<Seq<char>>, row: int, n: nat) -> int
    decreases n,
{
    if n == 0 || row >= last_row(rows) {
        row
    } else {
        paragraph_down(rows, paragraph_below(rows, row), (n - 1) as nat)
    }
}

fn walk_up<B: Query>(buf: &B, from: usize, empty: bool) -> (r: usize)
    ensures
        r == up_while(buf.rows(), from as int, empty),
        r <= from,
{
    let n: usize = read_row_count(buf);
    let mut r: usize = from;
    while r > 0 && r < n && read_line(buf, r).is_empty() == empty
        invariant
            n == buf.rows().len(),
            r <= from,
            up_while(buf.rows(), from as int, empty) == up_while(buf.rows(), r as int, empty),
        decreases r,
    {
        r = r - 1;
    }
    r
}

fn walk_down<B: Query>(buf: &B, from: usize, empty: bool) -> (r: usize)
    requires
        from < buf.rows().len(),
    ensures
        r == down_while(buf.rows(), from as int, empty),
        from <= r < buf.rows().len(),
{
    let n: usize = read_row_count(buf);
    let mut r: usize = from;
    while r < n - 1 && read_line(buf, r).is_empty() == empty
        invariant
            n == buf.rows().len(),
            from <= r < n,
            down_while(buf.rows(), from as int, empty) == down_while(
                buf.rows(),
                r as int,
                empty,
            ),
        decreases n - r,
    {
        r = r + 1;
    }
    r
}

fn is_blank_row<B: Query>(buf: &B, row: usize) -> (b: bool)
    ensures
        b == blank_row(buf.rows(), row as int),
{
    row < read_row_count(buf) && read_line(buf, row).is_empty()
}

/// `{`: the previous blank line, or the first row.
pub fn move_paragraph_prev<B: Cursor>(buf: &mut B, count: usize)
    ensures
        sent(
            *old(buf),
            *final(buf),
            (
                paragraph_up(
                    old(buf).rows(),
                    cursor_place(*old(buf)).0,
                    at_least_once(count) as nat,
                ),
                0int,
            ),
        ),
{
    let mut row: usize = read_cursor(buf).row;
    let ghost start = row as int;
    let mut left: usize = once_or_more(count);
    while left > 0 && row > 0
        invariant
            *buf == *old(buf),
            paragraph_up(buf.rows(), start, at_least_once(count) as nat) == paragraph_up(
                buf.rows(),
                row as int,
                left as nat,
            ),
        decreases left,
    {
        let r: usize = if is_blank_row(buf, row) {
            walk_up(buf, row - 1, true)
        } else {
            row - 1
        };
        row = walk_up(buf, r, false);
        left = left - 1;
    }
    write_cursor(buf, Position::new(row, 0));
}

/// `}`: the next blank line, or the last row.
pub fn move_paragraph_next<B: Cursor>(buf: &mut B, count: usize)
    ensures
        sent(
            *old(buf),
            *final(buf),
            (
                paragraph_down(
                    old(buf).rows(),
                    cursor_place(*old(buf)).0,
                    at_least_once(count) as nat,
                ),
                0int,
            ),
        ),
{
    let n: usize = read_row_count(buf);
    let last: usize = if n == 0 {
        0
    } else {
        n - 1
    };
    let mut row: usize = read_cursor(buf).row;
    let ghost start = row as int;
    let mut left: usize = once_or_more(count);
    while left > 0 && row < last
        invariant
            *buf == *old(buf),
            n == buf.rows().len(),
            last == last_row(buf.rows()),
            paragraph_down(buf.rows(), start, at_least_once(count) as nat) == paragraph_down(
                buf.rows(),
                row as int,
                left as nat,
            ),
        decreases left,
    {
        let r: usize = if is_blank_row(buf, row) {
            walk_down(buf, row + 1, true)
        } else {
            row + 1
        };
        row = walk_down(buf, r, false);
        left = left - 1;
    }
    write_cursor(buf, Position::new(row, 0));
}

/// Rows passed by going up are as asked for; the row reached is not, or it is
/// the first.
proof fn lemma_up_while(rows: Seq<Seq<char>>, r: int, empty: bool)
    requires
        0 <= r < rows.len(),
    ensures
        0 <= up_while(rows, r, empty) <= r,
        forall|k: int|
            up_while(rows, r, empty) < k <= r ==> (#[trigger] rows[k].len() == 0) == empty,
        up_while(rows, r, empty) > 0 ==> (rows[up_while(rows, r, empty)].len() == 0) != empty,
    decreases r,
{
    if 0 < r && (rows[r].len() == 0) == empty {
        lemma_up_while(rows, r - 1, empty);
    }
}

/// Rows passed by going down are as asked for; the row reached is not, or it is
/// the last.
proof fn lemma_down_while(rows: Seq<Seq<char>>, r: int, empty: bool)
    requires
        0 <= r < rows.len(),
    ensures
        r <= down_while(rows, r, empty) < rows.len(),
        forall|k: int|
            r <= k < down_while(rows, r, empty) ==> (#[trigger] rows[k].len() == 0) == empty,
        down_while(rows, r, empty) < rows.len() - 1 ==> (rows[down_while(rows, r, empty)].len()
            == 0) != empty,
    decreases rows.len() - r,
{
    if r < rows.len() - 1 && (rows[r].len() == 0) == empty {
        lemma_down_while(rows, r + 1, empty);
    }
}

/// `{` ends on an empty row above, or on the first row, and `}` on an empty row
/// below, or on the last. From a row that is not empty it is the nearest one.
pub proof fn law_paragraph_ends_at_blank_row(rows: Seq<Seq<char>>, row: int)
    requires
        0 <= row < rows.len(),
    ensures
        row > 0 ==> {
            let up = paragraph_above(rows, row);
            &&& 0 <= up < row
            &&& up > 0 ==> blank_row(rows, up)
            &&& !blank_row(rows, row) ==> forall|k: int|
                up < k < row ==> !#[trigger] blank_row(rows, k)
        },
        row < rows.len() - 1 ==> {
            let down = paragraph_below(rows, row);
            &&& row < down < rows.len()
            &&& down < rows.len() - 1 ==> blank_row(rows, down)
            &&& !blank_row(rows, row) ==> forall|k: int|
                row < k < down ==> !#[trigger] blank_row(rows, k)
        },
{
    if row > 0 {
        lemma_up_while(rows, row - 1, true);
        lemma_up_while(rows, row - 1, false);
        lemma_up_while(rows, up_while(rows, row - 1, true), false);
    }
    if row < rows.len() - 1 {
        lemma_down_while(rows, row + 1, true);
        lemma_down_while(rows, row + 1, false);
        lemma_down_while(rows, down_while(rows, row + 1, true), false);
    }
}

// ── Vertical motions ────────────────────────────────────────────────

/// The row `n` visible rows below or above `row`, or as far as there are.
pub open spec fn visible_steps(
    folds: Seq<(int, int, bool)>,
    limit: int,
    row: int,
    n: nat,
    down: bool,
) -> int
    decreases n,
{
    let next = if down {
        buffer::next_visible(folds, limit, row)
    } else {
        buffer::prev_visible(folds, row)
    };
    if n == 0 {
        row
    } else {
        match next {
            Some(r) => visible_steps(folds, limit, r, (n - 1) as nat, down),
            None => row,
        }
    }
}

/// The column a vertical motion aims at: the remembered one, or the current.
pub open spec fn wanted_col(sticky: Option<usize>, col: int) -> int {
    match sticky {
        Some(c) => c as int,
        None => col,
    }
}

/// Where a vertical motion sends the cursor.
pub open spec fn vertical_target<B: Cursor, F: FoldProvider>(
    b: B,
    folds: F,
    count: int,
    sticky: Option<usize>,
    down: bool,
) -> (int, int) {
    let row = visible_steps(
        folds.fold_list(),
        folds.row_limit(b.rows().len() as int),
        cursor_place(b).0,
        count as nat,
        down,
    );
    (row, text::min(wanted_col(sticky, cursor_place(b).1), last_col(line_at(b.rows(), row))))
}

fn move_vertical<B: Cursor, F: FoldProvider>(
    buf: &mut B,
    folds: &F,
    down: bool,
    count: usize,
    sticky_col: &mut Option<usize>,
)
    ensures
        sent(
            *old(buf),
            *final(buf),
            vertical_target(*old(buf), *folds, count as int, *old(sticky_col), down),
        ),
        *final(sticky_col) == Some(
            wanted_col(*old(sticky_col), cursor_place(*old(buf)).1) as usize,
        ),
{
    let cursor = read_cursor(buf);
    let want: usize = match *sticky_col {
        Some(c) => c,
        None => cursor.col,
    };
    *sticky_col = Some(want);
    let n: usize = read_row_count(buf);
    let mut row: usize = cursor.row;
    let mut left: usize = count;
    let ghost list = folds.fold_list();
    let ghost limit = folds.row_limit(n as int);
    while left > 0
        invariant
            n == buf.rows().len(),
            list == folds.fold_list(),
            limit == folds.row_limit(n as int),
            visible_steps(list, limit, cursor.row as int, count as nat, down) == visible_steps(
                list,
                limit,
                row as int,
                left as nat,
                down,
            ),
        decreases left,
    {
        let next: Option<usize> = if down {
            folds.next_visible_row(row, n)
        } else {
            folds.prev_visible_row(row)
        };
        match next {
            Some(r) => {
                row = r;
                left = left - 1;
            },
            None => {
                left = 0;
            },
        }
    }
    let max: usize = last_col_of(read_line(buf, row));
    let col: usize = if want < max {
        want
    } else {
        max
    };
    write_cursor(buf, Position::new(row, col));
}

/// `k`: `count` visible rows up. `sticky_col` is the column the motion aims
/// at; it is set from the cursor where it is not set yet.
pub fn move_up<B: Cursor, F: FoldProvider>(
    buf: &mut B,
    folds: &F,
    count: usize,
    sticky_col: &mut Option<usize>,
)
    ensures
        sent(
            *old(buf),
            *final(buf),
            vertical_target(*old(buf), *folds, at_least_once(count), *old(sticky_col), false),
        ),
        *final(sticky_col) == Some(
            wanted_col(*old(sticky_col), cursor_place(*old(buf)).1) as usize,
        ),
{
    move_vertical(buf, folds, false, once_or_more(count), sticky_col);
}

/// `j`: `count` visible rows down; see [`move_up`].
pub fn move_down<B: Cursor, F: FoldProvider>(
    buf: &mut B,
    folds: &F,
    count: usize,
    sticky_col: &mut Option<usize>,
)
    ensures
        sent(
            *old(buf),
            *final(buf),
            vertical_target(*old(buf), *folds, at_least_once(count), *old(sticky_col), true),
        ),
        *final(sticky_col) == Some(
            wanted_col(*old(sticky_col), cursor_place(*old(buf)).1) as usize,
        ),
{
    move_vertical(buf, folds, true, once_or_more(count), sticky_col);
}

/// Steps over visible rows add up.
pub proof fn law_steps_add_up(
    folds: Seq<(int, int, bool)>,
    limit: int,
    row: int,
    m: nat,
    n: nat,
    down: bool,
)
    ensures
        visible_steps(folds, limit, visible_steps(folds, limit, row, m, down), n, down)
            == visible_steps(folds, limit, row, m + n, down),
    decreases m,
{
    let next = if down {
        buffer::next_visible(folds, limit, row)
    } else {
        buffer::prev_visible(folds, row)
    };
    if m > 0 {
        match next {
            Some(r) => {
                law_steps_add_up(folds, limit, r, (m - 1) as nat, n, down);
            },
            None => {},
        }
    }
}

/// Two vertical motions the same way lead where one motion with both counts
/// leads: a short row in between does not pull the column in. The store has
/// to leave the cursor on the row it was sent to.
pub proof fn law_short_row_keeps_column<B: Cursor, F: FoldProvider>(
    b: B,
    between: B,
    folds: F,
    m: nat,
    n: nat,
    sticky: Option<usize>,
    down: bool,
)
    requires
        sent(b, between, vertical_target(b, folds, m as int, sticky, down)),
        cursor_place(between).0 == vertical_target(b, folds, m as int, sticky, down).0,
    ensures
        vertical_target(
            between,
            folds,
            n as int,
            Some(wanted_col(sticky, cursor_place(b).1) as usize),
            down,
        ) == vertical_target(b, folds, (m + n) as int, sticky, down),
{
    law_steps_add_up(
        folds.fold_list(),
        folds.row_limit(b.rows().len() as int),
        cursor_place(b).0,
        m,
        n,
        down,
    );
}

fn move_to_row<B: Cursor>(buf: &mut B, row: usize)
    ensures
        sent_to_row(*old(buf), *final(buf), row as int),
{
    write_cursor(buf, Position::new(row, 0));
    move_first_non_blank(buf);
}

/// `gg`: the first row, at its first column that holds no blank.
pub fn move_top<B: Cursor>(buf: &mut B)
    ensures
        sent_to_row(*old(buf), *final(buf), 0),
{
    move_to_row(buf, 0);
}

/// `G`: row `count`, counted from 1, or the last row where `count` is 0 or too
/// large, at its first column that holds no blank.
pub fn move_bottom<B: Cursor>(buf: &mut B, count: usize)
    ensures
        sent_to_row(
            *old(buf),
            *final(buf),
            if count == 0 {
                last_row(old(buf).rows())
            } else {
                text::min(count - 1, last_row(old(buf).rows()))
            },
        ),
{
    let last: usize = last_row_of(buf);
    let row: usize = if count == 0 || count - 1 > last {
        last
    } else {
        count - 1
    };
    move_to_row(buf, row);
}

fn last_row_of<B: Query>(buf: &B) -> (r: usize)
    ensures
        r == last_row(buf.rows()),
{
    let n: usize = read_row_count(buf);
    if n == 0 {
        0
    } else {
        n - 1
    }
}

// ── Screen rows ─────────────────────────────────────────────────────

/// Soft wrap comes to an end on every row.
pub open spec fn rows_wrap(rows: Seq<Seq<char>>, v: Viewport) -> bool {
    forall|i: int|
        0 <= i < rows.len() ==> rope::wraps(#[trigger] rows[i], v.text_width, v.wrap)
}

/// Whether soft wrap comes to an end on every row of a store, at the width and in
/// the mode of a viewport. Whoever does not know that asks here before a motion
/// over screen rows, and before the viewport follows the cursor.
pub fn can_wrap<B: Query>(buf: &B, viewport: &Viewport) -> (b: bool)
    ensures
        b == rows_wrap(buf.rows(), *viewport),
{
    let n: usize = read_row_count(buf);
    let mut i: usize = 0;
    while i < n
        invariant
            n == buf.rows().len(),
            i <= n,
            forall|k: int|
                0 <= k < i ==> rope::wraps(
                    #[trigger] buf.rows()[k],
                    viewport.text_width,
                    viewport.wrap,
                ),
        decreases n - i,
    {
        if !rope::line_wraps(read_line(buf, i), viewport.text_width, viewport.wrap) {
            assert(!rope::wraps(buf.rows()[i as int], viewport.text_width, viewport.wrap));
            return false;
        }
        i = i + 1;
    }
    true
}

/// The screen rows of a line in a viewport.
pub open spec fn screen_rows(line: Seq<char>, v: Viewport) -> Seq<(usize, usize)> {
    rope::segments(line, v.text_width, v.wrap)
}

/// The column `want` columns into a screen row, kept on that screen row and on
/// the line.
pub open spec fn segment_col(seg: (usize, usize), want: int, line: Seq<char>) -> int {
    let last = if seg.1 > seg.0 {
        seg.1 - 1
    } else {
        seg.0 as int
    };
    text::max(
        text::min(text::min(seg.0 + want, last), last_col(line)),
        text::min(seg.0 as int, last_col(line)),
    )
}

/// How far a place lies from the start of its screen row.
pub open spec fn visual_col(rows: Seq<Seq<char>>, v: Viewport, p: (int, int)) -> int {
    let segs = screen_rows(line_at(rows, p.0), v);
    text::max(p.1 - segs[rope::segment_of(segs, p.1)].0, 0)
}

/// The place one screen row below or above `p`, `want` columns into it: on the
/// same row where it has one more, else on the next visible row.
pub open spec fn screen_step(
    rows: Seq<Seq<char>>,
    folds: Seq<(int, int, bool)>,
    limit: int,
    v: Viewport,
    down: bool,
    want: int,
    p: (int, int),
) -> Option<(int, int)> {
    let line = line_at(rows, p.0);
    let segs = screen_rows(line, v);
    let i = rope::segment_of(segs, p.1);
    if down && i + 1 < segs.len() {
        Some((p.0, segment_col(segs[i + 1], want, line)))
    } else if !down && i > 0 {
        Some((p.0, segment_col(segs[i - 1], want, line)))
    } else if down {
        match buffer::next_visible(folds, limit, p.0) {
            Some(r) => {
                let next = line_at(rows, r);
                Some((r, segment_col(screen_rows(next, v)[0], want, next)))
            },
            None => None,
        }
    } else {
        match buffer::prev_visible(folds, p.0) {
            Some(r) => {
                let prev = line_at(rows, r);
                Some((r, segment_col(screen_rows(prev, v).last(), want, prev)))
            },
            None => None,
        }
    }
}

/// True when the viewport breaks long rows.
pub open spec fn wraps_rows(v: Viewport) -> bool {
    v.wrap !is Off && v.text_width > 0
}

fn segment_col_of(seg: (usize, usize), want: usize, line: &str) -> (c: usize)
    ensures
        c == segment_col(seg, want as int, line@),
{
    let max: usize = last_col_of(line);
    let last: usize = if seg.1 > seg.0 {
        seg.1 - 1
    } else {
        seg.0
    };
    let limit: usize = if last < max {
        last
    } else {
        max
    };
    let reach: usize = text::advance(seg.0, want, limit);
    let least: usize = if seg.0 < max {
        seg.0
    } else {
        max
    };
    if reach > least {
        reach
    } else {
        least
    }
}

/// Breaks a row of the store into its screen rows.
pub(crate) fn read_segments<B: Query>(buf: &B, v: &Viewport, row: usize) -> (segs: Vec<
    (usize, usize),
>)
    requires
        rows_wrap(buf.rows(), *v),
    ensures
        segs@ == screen_rows(line_at(buf.rows(), row as int), *v),
        1 <= segs@.len() <= line_at(buf.rows(), row as int).len() + 1,
{
    let segs = rope::wrap_line(read_line(buf, row), v.text_width, v.wrap);
    proof {
        lemma_tiles_count(segs@, line_at(buf.rows(), row as int).len() as int, segs@.len() - 1);
    }
    segs
}

/// Each of the segments of a line starts at or after the column of its number.
proof fn lemma_tiles_count(segs: Seq<(usize, usize)>, len: int, i: int)
    requires
        rope::tiles(segs, len),
        0 <= i < segs.len(),
    ensures
        i <= segs[i].0,
        i <= len,
    decreases i,
{
    if i > 0 {
        lemma_tiles_count(segs, len, i - 1);
        assert(segs[i - 1].1 == segs[i].0);
    }
    if i < segs.len() - 1 {
        lemma_tiles_rise(segs, len, i);
    }
}

/// No segment of a line starts past the end of the line.
proof fn lemma_tiles_rise(segs: Seq<(usize, usize)>, len: int, i: int)
    requires
        rope::tiles(segs, len),
        0 <= i < segs.len(),
    ensures
        segs[i].0 <= len,
        segs[i].1 <= len,
    decreases segs.len() - i,
{
    if i < segs.len() - 1 {
        lemma_tiles_rise(segs, len, i + 1);
    }
}

fn step_screen<B: Cursor, F: FoldProvider>(
    buf: &mut B,
    folds: &F,
    viewport: &Viewport,
    down: bool,
    want: usize,
) -> (moved: bool)
    requires
        rows_wrap(old(buf).rows(), *viewport),
    ensures
        match screen_step(
            old(buf).rows(),
            folds.fold_list(),
            folds.row_limit(old(buf).rows().len() as int),
            *viewport,
            down,
            want as int,
            cursor_place(*old(buf)),
        ) {
            Some(p) => moved && sent(*old(buf), *final(buf), p),
            None => !moved && *final(buf) == *old(buf),
        },
{
    let cursor = read_cursor(buf);
    let segs = read_segments(buf, viewport, cursor.row);
    let i: usize = rope::segment_for_col(&segs, cursor.col);
    let n: usize = read_row_count(buf);
    proof {
        lemma_segment_of_in(segs@, cursor.col as int);
    }
    if down && i < segs.len() - 1 {
        let col: usize = segment_col_of(segs[i + 1], want, read_line(buf, cursor.row));
        write_cursor(buf, Position::new(cursor.row, col));
        return true;
    }
    if !down && i > 0 {
        let col: usize = segment_col_of(segs[i - 1], want, read_line(buf, cursor.row));
        write_cursor(buf, Position::new(cursor.row, col));
        return true;
    }
    let next: Option<usize> = if down {
        folds.next_visible_row(cursor.row, n)
    } else {
        folds.prev_visible_row(cursor.row)
    };
    match next {
        Some(row) => {
            let other = read_segments(buf, viewport, row);
            let seg: (usize, usize) = if down {
                other[0]
            } else {
                other[other.len() - 1]
            };
            let col: usize = segment_col_of(seg, want, read_line(buf, row));
            write_cursor(buf, Position::new(row, col));
            true
        },
        None => false,
    }
}

/// The segment of a column is one of the segments.
pub proof fn lemma_segment_of_in(segs: Seq<(usize, usize)>, col: int)
    requires
        segs.len() >= 1,
    ensures
        0 <= rope::segment_of(segs, col) < segs.len(),
{
    buffer::lemma_first_where_range(segs, |s: (usize, usize)| s.0 <= col < s.1);
}

/// Where `count` screen rows lead, from the visual column of the start.
pub open spec fn screen_target<B: Cursor, F: FoldProvider>(
    b: B,
    folds: F,
    v: Viewport,
    count: int,
    down: bool,
) -> Pos {
    let want = visual_col(b.rows(), v, cursor_place(b));
    repeated(
        b,
        b.at(),
        count as nat,
        |p: (int, int)|
            screen_step(
                b.rows(),
                folds.fold_list(),
                folds.row_limit(b.rows().len() as int),
                v,
                down,
                want,
                p,
            ),
    )
}

fn move_screen_vertical<B: Cursor, F: FoldProvider>(
    buf: &mut B,
    folds: &F,
    viewport: &Viewport,
    down: bool,
    count: usize,
    sticky_col: &mut Option<usize>,
)
    requires
        wraps_rows(*viewport) ==> rows_wrap(old(buf).rows(), *viewport),
    ensures
        !wraps_rows(*viewport) ==> sent(
            *old(buf),
            *final(buf),
            vertical_target(*old(buf), *folds, count as int, *old(sticky_col), down),
        ) && *final(sticky_col) == Some(
            wanted_col(*old(sticky_col), cursor_place(*old(buf)).1) as usize,
        ),
        wraps_rows(*viewport) ==> final(buf).at() == screen_target(
            *old(buf),
            *folds,
            *viewport,
            count as int,
            down,
        ) && same_store(*old(buf), *final(buf)) && *final(sticky_col) == Some(
            final(buf).at().col as usize,
        ),
{
    if matches!(viewport.wrap, Wrap::Off) || viewport.text_width == 0 {
        move_vertical(buf, folds, down, count, sticky_col);
        return;
    }
    let cursor = read_cursor(buf);
    let segs = read_segments(buf, viewport, cursor.row);
    let i: usize = rope::segment_for_col(&segs, cursor.col);
    proof {
        lemma_segment_of_in(segs@, cursor.col as int);
    }
    let start: usize = segs[i].0;
    let want: usize = if cursor.col > start {
        cursor.col - start
    } else {
        0
    };
    let mut left: usize = count;
    let ghost f = |p: (int, int)|
        screen_step(
            old(buf).rows(),
            folds.fold_list(),
            folds.row_limit(old(buf).rows().len() as int),
            *viewport,
            down,
            want as int,
            p,
        );
    while left > 0
        invariant
            same_store(*old(buf), *buf),
            rows_wrap(buf.rows(), *viewport),
            f == (|p: (int, int)|
                screen_step(
                    old(buf).rows(),
                    folds.fold_list(),
                    folds.row_limit(old(buf).rows().len() as int),
                    *viewport,
                    down,
                    want as int,
                    p,
                )),
            repeated(*old(buf), old(buf).at(), count as nat, f) == repeated(
                *old(buf),
                buf.at(),
                left as nat,
                f,
            ),
        decreases left,
    {
        if step_screen(buf, folds, viewport, down, want) {
            left = left - 1;
        } else {
            left = 0;
        }
    }
    *sticky_col = Some(read_cursor(buf).col);
}

/// `gk`: `count` screen rows up, at the same distance from the start of the
/// screen row. Without soft wrap this is [`move_up`].
pub fn move_screen_up<B: Cursor, F: FoldProvider>(
    buf: &mut B,
    folds: &F,
    viewport: &Viewport,
    count: usize,
    sticky_col: &mut Option<usize>,
)
    requires
        wraps_rows(*viewport) ==> rows_wrap(old(buf).rows(), *viewport),
    ensures
        !wraps_rows(*viewport) ==> sent(
            *old(buf),
            *final(buf),
            vertical_target(*old(buf), *folds, at_least_once(count), *old(sticky_col), false),
        ) && *final(sticky_col) == Some(
            wanted_col(*old(sticky_col), cursor_place(*old(buf)).1) as usize,
        ),
        wraps_rows(*viewport) ==> final(buf).at() == screen_target(
            *old(buf),
            *folds,
            *viewport,
            at_least_once(count),
            false,
        ) && same_store(*old(buf), *final(buf)) && *final(sticky_col) == Some(
            final(buf).at().col as usize,
        ),
{
    move_screen_vertical(buf, folds, viewport, false, once_or_more(count), sticky_col);
}

/// `gj`: `count` screen rows down; see [`move_screen_up`].
pub fn move_screen_down<B: Cursor, F: FoldProvider>(
    buf: &mut B,
    folds: &F,
    viewport: &Viewport,
    count: usize,
    sticky_col: &mut Option<usize>,
)
    requires
        wraps_rows(*viewport) ==> rows_wrap(old(buf).rows(), *viewport),
    ensures
        !wraps_rows(*viewport) ==> sent(
            *old(buf),
            *final(buf),
            vertical_target(*old(buf), *folds, at_least_once(count), *old(sticky_col), true),
        ) && *final(sticky_col) == Some(
            wanted_col(*old(sticky_col), cursor_place(*old(buf)).1) as usize,
        ),
        wraps_rows(*viewport) ==> final(buf).at() == screen_target(
            *old(buf),
            *folds,
            *viewport,
            at_least_once(count),
            true,
        ) && same_store(*old(buf), *final(buf)) && *final(sticky_col) == Some(
            final(buf).at().col as usize,
        ),
{
    move_screen_vertical(buf, folds, viewport, true, once_or_more(count), sticky_col);
}

// ── Viewport motions ────────────────────────────────────────────────

/// The last row that a viewport shows.
pub open spec fn visible_bottom(rows: Seq<Seq<char>>, v: Viewport) -> int {
    text::min(v.top_row + text::max(v.height - 1, 0), last_row(rows))
}

fn visible_bottom_of<B: Query>(buf: &B, v: &Viewport) -> (r: usize)
    ensures
        r == visible_bottom(buf.rows(), *v),
{
    let h: usize = v.height as usize;
    let below: usize = if h == 0 {
        0
    } else {
        h - 1
    };
    let last: usize = last_row_of(buf);
    text::advance(v.top_row, below, last)
}

/// `H`: `offset` rows below the top of the viewport.
pub fn move_viewport_top<B: Cursor>(buf: &mut B, viewport: &Viewport, offset: usize)
    ensures
        sent_to_row(
            *old(buf),
            *final(buf),
            text::min(viewport.top_row + offset, last_row(old(buf).rows())),
        ),
{
    let row: usize = text::advance(viewport.top_row, offset, last_row_of(buf));
    move_to_row(buf, row);
}

/// `M`: the middle row of the viewport.
pub fn move_viewport_middle<B: Cursor>(buf: &mut B, viewport: &Viewport)
    requires
        viewport.top_row <= last_row(old(buf).rows()),
    ensures
        sent_to_row(
            *old(buf),
            *final(buf),
            viewport.top_row + (visible_bottom(old(buf).rows(), *viewport) - viewport.top_row) / 2,
        ),
{
    let bottom: usize = visible_bottom_of(buf, viewport);
    let row: usize = viewport.top_row + (bottom - viewport.top_row) / 2;
    move_to_row(buf, row);
}

/// `L`: `offset` rows above the bottom of the viewport, no higher than its top.
pub fn move_viewport_bottom<B: Cursor>(buf: &mut B, viewport: &Viewport, offset: usize)
    ensures
        sent_to_row(
            *old(buf),
            *final(buf),
            text::max(
                visible_bottom(old(buf).rows(), *viewport) - offset,
                viewport.top_row as int,
            ),
        ),
{
    let bottom: usize = visible_bottom_of(buf, viewport);
    let row: usize = if bottom > offset && bottom - offset > viewport.top_row {
        bottom - offset
    } else {
        viewport.top_row
    };
    move_to_row(buf, row);
}

// ── Words ───────────────────────────────────────────────────────────

/// What word motions make of a character.
#[derive(Debug, Clone, Copy, PartialEq, Eq, Structural)]
pub enum CharKind {
    /// Part of a word.
    Word,
    /// Neither blank nor part of a word.
    Punct,
    /// A blank.
    Space,
}

/// The kind of a character; `big` words take in everything but blanks.
pub open spec fn kind_of(c: char, big: bool, list: Seq<char>) -> CharKind {
    if text::white_space(c) {
        CharKind::Space
    } else if big || rope::keyword(c, list) {
        CharKind::Word
    } else {
        CharKind::Punct
    }
}

/// The kind of the character at a place, where there is one.
pub open spec fn kind_at(
    rows: Seq<Seq<char>>,
    p: (int, int),
    big: bool,
    list: Seq<char>,
) -> Option<CharKind> {
    if 0 <= p.0 < rows.len() && 0 <= p.1 < rows[p.0].len() {
        Some(kind_of(rows[p.0][p.1], big, list))
    } else {
        None
    }
}

/// The next place: the next character, or the start of the next row.
pub open spec fn step_forward(rows: Seq<Seq<char>>, p: (int, int)) -> Option<(int, int)> {
    if p.0 >= rows.len() {
        None
    } else if p.1 + 1 < rows[p.0].len() {
        Some((p.0, p.1 + 1))
    } else if p.0 + 1 < rows.len() {
        Some((p.0 + 1, 0int))
    } else {
        None
    }
}

/// The place before: the character before, or the last one of the row above.
pub open spec fn step_back(rows: Seq<Seq<char>>, p: (int, int)) -> Option<(int, int)> {
    if p.1 > 0 {
        Some((p.0, p.1 - 1))
    } else if p.0 <= 0 {
        None
    } else {
        Some((p.0 - 1, last_col(line_at(rows, p.0 - 1))))
    }
}

/// One past the last character of the last row.
pub open spec fn end_of_text(rows: Seq<Seq<char>>) -> (int, int) {
    (last_row(rows), line_at(rows, last_row(rows)).len() as int)
}

/// A place comes before another.
pub open spec fn before(a: (int, int), b: (int, int)) -> bool {
    a.0 < b.0 || (a.0 == b.0 && a.1 < b.1)
}

/// True where no word can be: at a blank, and where there is no character, as
/// on an empty row.
pub open spec fn blank_at(rows: Seq<Seq<char>>, p: (int, int), big: bool, list: Seq<char>) -> bool {
    match kind_at(rows, p, big, list) {
        Some(k) => k == CharKind::Space,
        None => true,
    }
}

/// A word starts at a place: no blank is there, and what stands before it on
/// its row is of another kind.
pub open spec fn word_starts(
    rows: Seq<Seq<char>>,
    p: (int, int),
    big: bool,
    list: Seq<char>,
) -> bool {
    &&& !blank_at(rows, p, big, list)
    &&& kind_at(rows, (p.0, p.1 - 1), big, list) != kind_at(rows, p, big, list)
}

/// A word ends at a place: no blank is there, and what stands behind it on its
/// row is of another kind.
pub open spec fn word_ends(
    rows: Seq<Seq<char>>,
    p: (int, int),
    big: bool,
    list: Seq<char>,
) -> bool {
    &&& !blank_at(rows, p, big, list)
    &&& kind_at(rows, (p.0, p.1 + 1), big, list) != kind_at(rows, p, big, list)
}

/// The start of an empty row.
pub open spec fn empty_row_at(rows: Seq<Seq<char>>, p: (int, int)) -> bool {
    0 <= p.0 < rows.len() && rows[p.0].len() == 0 && p.1 == 0
}

/// The places that a word motion looks for.
#[derive(Debug, Clone, Copy, PartialEq, Eq, Structural)]
pub enum WordPlace {
    /// The starts of words.
    Start,
    /// The starts of words, and empty rows.
    StartOrEmptyRow,
    /// The ends of words.
    End,
}

/// True at a place that a word motion looks for.
pub open spec fn is_word_place(
    rows: Seq<Seq<char>>,
    p: (int, int),
    what: WordPlace,
    big: bool,
    list: Seq<char>,
) -> bool {
    match what {
        WordPlace::Start => word_starts(rows, p, big, list),
        WordPlace::StartOrEmptyRow => word_starts(rows, p, big, list) || empty_row_at(rows, p),
        WordPlace::End => word_ends(rows, p, big, list),
    }
}

/// The first place behind `p` that a word motion looks for.
pub open spec fn word_place_ahead(
    rows: Seq<Seq<char>>,
    p: (int, int),
    what: WordPlace,
    big: bool,
    list: Seq<char>,
) -> Option<(int, int)>
    decreases rows.len() - p.0, line_at(rows, p.0).len() - p.1,
    when 0 <= p.0 && 0 <= p.1
{
    match step_forward(rows, p) {
        None => None,
        Some(q) => if is_word_place(rows, q, what, big, list) {
            Some(q)
        } else {
            word_place_ahead(rows, q, what, big, list)
        },
    }
}

/// The last place before `p` that a word motion looks for.
pub open spec fn word_place_back(
    rows: Seq<Seq<char>>,
    p: (int, int),
    what: WordPlace,
    big: bool,
    list: Seq<char>,
) -> Option<(int, int)>
    decreases p.0, p.1,
    when 0 <= p.0 && 0 <= p.1
{
    match step_back(rows, p) {
        None => None,
        Some(q) => if is_word_place(rows, q, what, big, list) {
            Some(q)
        } else {
            word_place_back(rows, q, what, big, list)
        },
    }
}

/// The start of the next word; an empty row counts as a word. Without a next
/// word it is the end of the text.
pub open spec fn next_word_start(
    rows: Seq<Seq<char>>,
    p: (int, int),
    big: bool,
    list: Seq<char>,
) -> (int, int) {
    match word_place_ahead(rows, p, WordPlace::StartOrEmptyRow, big, list) {
        Some(q) => q,
        None => end_of_text(rows),
    }
}

/// The start of the word before `p`, where there is one.
pub open spec fn prev_word_start(
    rows: Seq<Seq<char>>,
    p: (int, int),
    big: bool,
    list: Seq<char>,
) -> Option<(int, int)> {
    word_place_back(rows, p, WordPlace::Start, big, list)
}

/// The end of the word after `p`, where there is one.
pub open spec fn next_word_end(
    rows: Seq<Seq<char>>,
    p: (int, int),
    big: bool,
    list: Seq<char>,
) -> Option<(int, int)> {
    word_place_ahead(rows, p, WordPlace::End, big, list)
}

/// The end of the word before `p`, where there is one.
pub open spec fn prev_word_end(
    rows: Seq<Seq<char>>,
    p: (int, int),
    big: bool,
    list: Seq<char>,
) -> Option<(int, int)> {
    word_place_back(rows, p, WordPlace::End, big, list)
}

/// Where the cursor is after `n` steps of `f` from `at`, each sent through the
/// store; a step that leads nowhere is the last.
pub open spec fn repeated<B: Cursor>(
    b: B,
    at: Pos,
    n: nat,
    f: spec_fn((int, int)) -> Option<(int, int)>,
) -> Pos
    decreases n,
{
    if n == 0 {
        at
    } else {
        match f(buffer_impl::as_place(at)) {
            Some(p) => repeated(b, b.placed(buffer_impl::as_pos(p)), (n - 1) as nat, f),
            None => at,
        }
    }
}

fn char_kind(c: char, big: bool, list: &str) -> (k: CharKind)
    ensures
        k == kind_of(c, big, list@),
{
    if text::is_white_space(c) {
        CharKind::Space
    } else if big || rope::is_keyword(c, list) {
        CharKind::Word
    } else {
        CharKind::Punct
    }
}

fn char_kind_at<B: Query>(buf: &B, p: Position, big: bool, list: &str) -> (k: Option<CharKind>)
    ensures
        k == kind_at(buf.rows(), p.spot(), big, list@),
{
    let n: usize = read_row_count(buf);
    let line = read_line(buf, p.row);
    if p.row < n && p.col < text::char_count(line) {
        Some(char_kind(line.get_char(p.col), big, list))
    } else {
        None
    }
}

fn at_word_place<B: Query>(buf: &B, p: Position, what: WordPlace, big: bool, list: &str) -> (b: bool)
    ensures
        b == is_word_place(buf.rows(), p.spot(), what, big, list@),
{
    let kind = match char_kind_at(buf, p, big, list) {
        Some(k) => k,
        None => {
            return what == WordPlace::StartOrEmptyRow && p.col == 0 && p.row < read_row_count(buf);
        },
    };
    let len: usize = text::char_count(read_line(buf, p.row));
    let beside = if what == WordPlace::End {
        if p.col < len - 1 {
            char_kind_at(buf, Position::new(p.row, p.col + 1), big, list)
        } else {
            None
        }
    } else if p.col > 0 {
        char_kind_at(buf, Position::new(p.row, p.col - 1), big, list)
    } else {
        None
    };
    kind != CharKind::Space && beside != Some(kind)
}

/// A position where the model has a place.
pub open spec fn opt_spot(p: Option<Position>) -> Option<(int, int)> {
    match p {
        Some(q) => Some(q.spot()),
        None => None,
    }
}

fn forward_from<B: Query>(buf: &B, p: Position) -> (q: Option<Position>)
    ensures
        opt_spot(q) == step_forward(buf.rows(), p.spot()),
{
    let n: usize = read_row_count(buf);
    if p.row >= n {
        return None;
    }
    let len: usize = text::char_count(read_line(buf, p.row));
    if len > 0 && p.col < len - 1 {
        return Some(Position::new(p.row, p.col + 1));
    }
    if p.row < n - 1 {
        return Some(Position::new(p.row + 1, 0));
    }
    None
}

fn back_from<B: Query>(buf: &B, p: Position) -> (q: Option<Position>)
    ensures
        opt_spot(q) == step_back(buf.rows(), p.spot()),
{
    if p.col > 0 {
        return Some(Position::new(p.row, p.col - 1));
    }
    if p.row == 0 {
        return None;
    }
    let col: usize = last_col_of(read_line(buf, p.row - 1));
    Some(Position::new(p.row - 1, col))
}

fn end_of_text_of<B: Query>(buf: &B) -> (p: Position)
    ensures
        p.spot() == end_of_text(buf.rows()),
{
    let row: usize = last_row_of(buf);
    Position::new(row, text::char_count(read_line(buf, row)))
}

fn find_ahead<B: Query>(buf: &B, from: Position, what: WordPlace, big: bool, list: &str) -> (p:
    Option<Position>)
    ensures
        opt_spot(p) == word_place_ahead(buf.rows(), from.spot(), what, big, list@),
{
    let mut cur = from;
    loop
        invariant
            word_place_ahead(buf.rows(), from.spot(), what, big, list@) == word_place_ahead(
                buf.rows(),
                cur.spot(),
                what,
                big,
                list@,
            ),
        decreases buf.rows().len() - cur.row, line_at(buf.rows(), cur.row as int).len() - cur.col,
    {
        match forward_from(buf, cur) {
            Some(next) => {
                if at_word_place(buf, next, what, big, list) {
                    return Some(next);
                }
                cur = next;
            },
            None => {
                return None;
            },
        }
    }
}

fn find_back<B: Query>(buf: &B, from: Position, what: WordPlace, big: bool, list: &str) -> (p:
    Option<Position>)
    ensures
        opt_spot(p) == word_place_back(buf.rows(), from.spot(), what, big, list@),
{
    let mut cur = from;
    loop
        invariant
            word_place_back(buf.rows(), from.spot(), what, big, list@) == word_place_back(
                buf.rows(),
                cur.spot(),
                what,
                big,
                list@,
            ),
        decreases cur.row, cur.col,
    {
        match back_from(buf, cur) {
            Some(next) => {
                if at_word_place(buf, next, what, big, list) {
                    return Some(next);
                }
                cur = next;
            },
            None => {
                return None;
            },
        }
    }
}

/// `w` and `W`: the start of the next word, or the next empty row, `count` times.
/// `iskeyword` lists the characters that belong to a word.
pub fn move_word_fwd<B: Cursor>(buf: &mut B, big: bool, count: usize, iskeyword: &str)
    ensures
        final(buf).at() == repeated(
            *old(buf),
            old(buf).at(),
            at_least_once(count) as nat,
            |p: (int, int)| Some(next_word_start(old(buf).rows(), p, big, iskeyword@)),
        ),
        same_store(*old(buf), *final(buf)),
{
    let ghost f = |p: (int, int)| Some(next_word_start(old(buf).rows(), p, big, iskeyword@));
    let mut left: usize = once_or_more(count);
    while left > 0
        invariant
            same_store(*old(buf), *buf),
            f == (|p: (int, int)| Some(next_word_start(old(buf).rows(), p, big, iskeyword@))),
            repeated(*old(buf), old(buf).at(), at_least_once(count) as nat, f) == repeated(
                *old(buf),
                buf.at(),
                left as nat,
                f,
            ),
        decreases left,
    {
        let from = read_cursor(buf);
        let next = match find_ahead(buf, from, WordPlace::StartOrEmptyRow, big, iskeyword) {
            Some(p) => p,
            None => end_of_text_of(buf),
        };
        write_cursor(buf, next);
        left = left - 1;
    }
}

/// `b` and `B`: the start of the word before, `count` times.
pub fn move_word_back<B: Cursor>(buf: &mut B, big: bool, count: usize, iskeyword: &str)
    ensures
        final(buf).at() == repeated(
            *old(buf),
            old(buf).at(),
            at_least_once(count) as nat,
            |p: (int, int)| prev_word_start(old(buf).rows(), p, big, iskeyword@),
        ),
        same_store(*old(buf), *final(buf)),
{
    let ghost f = |p: (int, int)| prev_word_start(old(buf).rows(), p, big, iskeyword@);
    let mut left: usize = once_or_more(count);
    while left > 0
        invariant
            same_store(*old(buf), *buf),
            f == (|p: (int, int)| prev_word_start(old(buf).rows(), p, big, iskeyword@)),
            repeated(*old(buf), old(buf).at(), at_least_once(count) as nat, f) == repeated(
                *old(buf),
                buf.at(),
                left as nat,
                f,
            ),
        decreases left,
    {
        let from = read_cursor(buf);
        match find_back(buf, from, WordPlace::Start, big, iskeyword) {
            Some(p) => {
                write_cursor(buf, p);
                left = left - 1;
            },
            None => {
                left = 0;
            },
        }
    }
}

/// `e` and `E`: the end of the word, or of the next one, `count` times.
pub fn move_word_end<B: Cursor>(buf: &mut B, big: bool, count: usize, iskeyword: &str)
    ensures
        final(buf).at() == repeated(
            *old(buf),
            old(buf).at(),
            at_least_once(count) as nat,
            |p: (int, int)| next_word_end(old(buf).rows(), p, big, iskeyword@),
        ),
        same_store(*old(buf), *final(buf)),
{
    let ghost f = |p: (int, int)| next_word_end(old(buf).rows(), p, big, iskeyword@);
    let mut left: usize = once_or_more(count);
    while left > 0
        invariant
            same_store(*old(buf), *buf),
            f == (|p: (int, int)| next_word_end(old(buf).rows(), p, big, iskeyword@)),
            repeated(*old(buf), old(buf).at(), at_least_once(count) as nat, f) == repeated(
                *old(buf),
                buf.at(),
                left as nat,
                f,
            ),
        decreases left,
    {
        let from = read_cursor(buf);
        match find_ahead(buf, from, WordPlace::End, big, iskeyword) {
            Some(p) => {
                write_cursor(buf, p);
                left = left - 1;
            },
            None => {
                left = 0;
            },
        }
    }
}

/// `ge` and `gE`: the end of the word before, `count` times.
pub fn move_word_end_back<B: Cursor>(buf: &mut B, big: bool, count: usize, iskeyword: &str)
    ensures
        final(buf).at() == repeated(
            *old(buf),
            old(buf).at(),
            at_least_once(count) as nat,
            |p: (int, int)| prev_word_end(old(buf).rows(), p, big, iskeyword@),
        ),
        same_store(*old(buf), *final(buf)),
{
    let ghost f = |p: (int, int)| prev_word_end(old(buf).rows(), p, big, iskeyword@);
    let mut left: usize = once_or_more(count);
    while left > 0
        invariant
            same_store(*old(buf), *buf),
            f == (|p: (int, int)| prev_word_end(old(buf).rows(), p, big, iskeyword@)),
            repeated(*old(buf), old(buf).at(), at_least_once(count) as nat, f) == repeated(
                *old(buf),
                buf.at(),
                left as nat,
                f,
            ),
        decreases left,
    {
        let from = read_cursor(buf);
        match find_back(buf, from, WordPlace::End, big, iskeyword) {
            Some(p) => {
                write_cursor(buf, p);
                left = left - 1;
            },
            None => {
                left = 0;
            },
        }
    }
}

proof fn lemma_place_ahead(
    rows: Seq<Seq<char>>,
    p: (int, int),
    what: WordPlace,
    big: bool,
    list: Seq<char>,
)
    requires
        0 <= p.0,
        0 <= p.1,
    ensures
        match word_place_ahead(rows, p, what, big, list) {
            Some(w) => {
                &&& before(p, w)
                &&& is_word_place(rows, w, what, big, list)
                &&& forall|q: (int, int)|
                    before(p, q) && before(q, w) ==> !#[trigger] is_word_place(
                        rows,
                        q,
                        what,
                        big,
                        list,
                    )
            },
            None => forall|q: (int, int)|
                before(p, q) ==> !#[trigger] is_word_place(rows, q, what, big, list),
        },
    decreases rows.len() - p.0, line_at(rows, p.0).len() - p.1,
{
    if let Some(next) = step_forward(rows, p) {
        if !is_word_place(rows, next, what, big, list) {
            lemma_place_ahead(rows, next, what, big, list);
        }
        assert forall|q: (int, int)| before(p, q) && #[trigger] is_word_place(
            rows,
            q,
            what,
            big,
            list,
        ) implies q == next || before(next, q) by {}
    }
}

proof fn lemma_place_back(
    rows: Seq<Seq<char>>,
    p: (int, int),
    what: WordPlace,
    big: bool,
    list: Seq<char>,
)
    requires
        0 <= p.0,
        0 <= p.1,
    ensures
        match word_place_back(rows, p, what, big, list) {
            Some(w) => {
                &&& before(w, p)
                &&& is_word_place(rows, w, what, big, list)
                &&& forall|q: (int, int)|
                    before(w, q) && before(q, p) ==> !#[trigger] is_word_place(
                        rows,
                        q,
                        what,
                        big,
                        list,
                    )
            },
            None => forall|q: (int, int)|
                before(q, p) ==> !#[trigger] is_word_place(rows, q, what, big, list),
        },
    decreases p.0, p.1,
{
    if let Some(next) = step_back(rows, p) {
        if !is_word_place(rows, next, what, big, list) {
            lemma_place_back(rows, next, what, big, list);
        }
        assert forall|q: (int, int)| before(q, p) && #[trigger] is_word_place(
            rows,
            q,
            what,
            big,
            list,
        ) implies q == next || before(q, next) by {}
    }
}

/// Word motions lead to the nearest word: `w` forward to where a word starts or
/// to an empty row, and to the end of the text where there is neither; `b` back
/// to where a word starts, `e` forward to where one ends, `ge` back to where one
/// ends. No such place lies between the cursor and the one reached, and where a
/// motion leads nowhere there is none at all. Rows end words.
pub proof fn law_word_motions_lead_to_nearest_word(
    rows: Seq<Seq<char>>,
    p: (int, int),
    big: bool,
    list: Seq<char>,
)
    requires
        0 <= p.0 < rows.len(),
        0 <= p.1,
    ensures
        ({
            let w = next_word_start(rows, p, big, list);
            ||| {
                &&& before(p, w)
                &&& word_starts(rows, w, big, list) || empty_row_at(rows, w)
                &&& forall|q: (int, int)|
                    before(p, q) && before(q, w) ==> !(#[trigger] word_starts(rows, q, big, list)
                        || empty_row_at(rows, q))
            }
            ||| {
                &&& w == end_of_text(rows)
                &&& forall|q: (int, int)|
                    before(p, q) ==> !(#[trigger] word_starts(rows, q, big, list) || empty_row_at(
                        rows,
                        q,
                    ))
            }
        }),
        match prev_word_start(rows, p, big, list) {
            Some(w) => {
                &&& before(w, p)
                &&& word_starts(rows, w, big, list)
                &&& forall|q: (int, int)|
                    before(w, q) && before(q, p) ==> !#[trigger] word_starts(rows, q, big, list)
            },
            None => forall|q: (int, int)|
                before(q, p) ==> !#[trigger] word_starts(rows, q, big, list),
        },
        match next_word_end(rows, p, big, list) {
            Some(w) => {
                &&& before(p, w)
                &&& word_ends(rows, w, big, list)
                &&& forall|q: (int, int)|
                    before(p, q) && before(q, w) ==> !#[trigger] word_ends(rows, q, big, list)
            },
            None => forall|q: (int, int)|
                before(p, q) ==> !#[trigger] word_ends(rows, q, big, list),
        },
        match prev_word_end(rows, p, big, list) {
            Some(w) => {
                &&& before(w, p)
                &&& word_ends(rows, w, big, list)
                &&& forall|q: (int, int)|
                    before(w, q) && before(q, p) ==> !#[trigger] word_ends(rows, q, big, list)
            },
            None => forall|q: (int, int)|
                before(q, p) ==> !#[trigger] word_ends(rows, q, big, list),
        },
{
    let any = WordPlace::StartOrEmptyRow;
    lemma_place_ahead(rows, p, any, big, list);
    lemma_place_back(rows, p, WordPlace::Start, big, list);
    lemma_place_ahead(rows, p, WordPlace::End, big, list);
    lemma_place_back(rows, p, WordPlace::End, big, list);
    assert forall|q: (int, int)| #[trigger] word_starts(rows, q, big, list) implies is_word_place(
        rows,
        q,
        WordPlace::Start,
        big,
        list,
    ) && is_word_place(rows, q, any, big, list) by {}
    assert forall|q: (int, int)| #[trigger] empty_row_at(rows, q) implies is_word_place(
        rows,
        q,
        any,
        big,
        list,
    ) by {}
    assert forall|q: (int, int)| #[trigger] word_ends(rows, q, big, list) implies is_word_place(
        rows,
        q,
        WordPlace::End,
        big,
        list,
    ) by {}
}

// ── Finding on a line ───────────────────────────────────────────────

/// The first column after `col` that holds `ch`.
pub open spec fn char_after(line: Seq<char>, col: int, ch: char) -> Option<int>
    decreases line.len() - col,
{
    if col + 1 >= line.len() {
        None
    } else if line[col + 1] == ch {
        Some(col + 1)
    } else {
        char_after(line, col + 1, ch)
    }
}

/// The last column before `col` that holds `ch`.
pub open spec fn char_before(line: Seq<char>, col: int, ch: char) -> Option<int>
    decreases col,
{
    if col <= 0 {
        None
    } else if line[col - 1] == ch {
        Some(col - 1)
    } else {
        char_before(line, col - 1, ch)
    }
}

/// The column that `f`, `F`, `t` and `T` look for; `till` stops one short.
pub open spec fn find_target(line: Seq<char>, col: int, ch: char, forward: bool, till: bool) -> Option<
    int,
> {
    if line.len() == 0 {
        None
    } else if forward {
        match char_after(line, col, ch) {
            Some(i) => Some(if till {
                i - 1
            } else {
                i
            }),
            None => None,
        }
    } else {
        match char_before(line, col, ch) {
            Some(i) => Some(if till {
                i + 1
            } else {
                i
            }),
            None => None,
        }
    }
}

/// `f`, `F`, `t` and `T`: to `ch` on the row of the cursor, or one short of it.
/// Says whether there was one.
pub fn find_char_on_line<B: Cursor>(buf: &mut B, ch: char, forward: bool, till: bool) -> (moved:
    bool)
    requires
        forward || line_at(old(buf).rows(), cursor_place(*old(buf)).0).len() == 0
            || cursor_place(*old(buf)).1 <= line_at(
            old(buf).rows(),
            cursor_place(*old(buf)).0,
        ).len(),
    ensures
        match find_target(
            line_at(old(buf).rows(), cursor_place(*old(buf)).0),
            cursor_place(*old(buf)).1,
            ch,
            forward,
            till,
        ) {
            Some(col) => moved && sent(
                *old(buf),
                *final(buf),
                (cursor_place(*old(buf)).0, col),
            ),
            None => !moved && *final(buf) == *old(buf),
        },
{
    let cursor = read_cursor(buf);
    let v = text::chars_of(read_line(buf, cursor.row));
    if v.len() == 0 {
        return false;
    }
    if forward {
        let mut i: usize = cursor.col;
        while i < v.len() - 1
            invariant
                *buf == *old(buf),
                cursor.spot() == cursor_place(*buf),
                v@ == line_at(buf.rows(), cursor.row as int),
                forward,
                v.len() > 0,
                char_after(v@, cursor.col as int, ch) == char_after(v@, i as int, ch),
            decreases v.len() - i,
        {
            i = i + 1;
            if v[i] == ch {
                let col: usize = if till {
                    i - 1
                } else {
                    i
                };
                write_cursor(buf, Position::new(cursor.row, col));
                return true;
            }
        }
    } else {
        let mut i: usize = cursor.col;
        while i > 0
            invariant
                *buf == *old(buf),
                cursor.spot() == cursor_place(*buf),
                v@ == line_at(buf.rows(), cursor.row as int),
                !forward,
                v.len() > 0,
                i <= cursor.col <= v.len(),
                char_before(v@, cursor.col as int, ch) == char_before(v@, i as int, ch),
            decreases i,
        {
            i = i - 1;
            if v[i] == ch {
                let col: usize = if till {
                    i + 1
                } else {
                    i
                };
                write_cursor(buf, Position::new(cursor.row, col));
                return true;
            }
        }
    }
    false
}

// ── Brackets ────────────────────────────────────────────────────────

/// The pair a bracket belongs to, and whether it is the opening one.
pub open spec fn bracket(c: char) -> Option<(char, char, bool)> {
    if c == '(' {
        Some(('(', ')', true))
    } else if c == ')' {
        Some(('(', ')', false))
    } else if c == '[' {
        Some(('[', ']', true))
    } else if c == ']' {
        Some(('[', ']', false))
    } else if c == '{' {
        Some(('{', '}', true))
    } else if c == '}' {
        Some(('{', '}', false))
    } else if c == '<' {
        Some(('<', '>', true))
    } else if c == '>' {
        Some(('<', '>', false))
    } else {
        None
    }
}

/// How many brackets are open before a place: opening ones less closing ones.
pub open spec fn depth(rows: Seq<Seq<char>>, open: char, close: char, p: (int, int)) -> int
    decreases p.0, p.1,
{
    if p.1 > 0 {
        depth(rows, open, close, (p.0, p.1 - 1)) + if rows[p.0][p.1 - 1] == open {
            1int
        } else if rows[p.0][p.1 - 1] == close {
            -1
        } else {
            0
        }
    } else if p.0 > 0 {
        depth(rows, open, close, (p.0 - 1, rows[p.0 - 1].len() as int))
    } else {
        0
    }
}

/// True when a place holds a character.
pub open spec fn is_cell(rows: Seq<Seq<char>>, p: (int, int)) -> bool {
    0 <= p.0 < rows.len() && 0 <= p.1 < rows[p.0].len()
}

/// True when a place is a character or the end of a row.
pub open spec fn is_place(rows: Seq<Seq<char>>, p: (int, int)) -> bool {
    0 <= p.0 < rows.len() && 0 <= p.1 <= rows[p.0].len()
}

/// True when `p` lies before `q`.
pub open spec fn strictly_before(p: (int, int), q: (int, int)) -> bool {
    p.0 < q.0 || (p.0 == q.0 && p.1 < q.1)
}

/// The depth is greater than `d` at every place after `p` and up to `q`.
pub open spec fn deeper_between(
    rows: Seq<Seq<char>>,
    open: char,
    close: char,
    p: (int, int),
    q: (int, int),
    d: int,
) -> bool {
    forall|i: int, j: int|
        is_place(rows, (i, j)) && strictly_before(p, (i, j)) && buffer::at_or_before((i, j), q)
            ==> #[trigger] depth(rows, open, close, (i, j)) > d
}

/// An opening bracket at `p` and a closing one at `q` belong together: the
/// depth stays greater than at `p` in between and is the same behind `q`.
pub open spec fn brackets_pair(
    rows: Seq<Seq<char>>,
    open: char,
    close: char,
    p: (int, int),
    q: (int, int),
) -> bool {
    &&& is_cell(rows, p) && is_cell(rows, q) && strictly_before(p, q)
    &&& rows[p.0][p.1] == open && rows[q.0][q.1] == close
    &&& deeper_between(rows, open, close, p, q, depth(rows, open, close, p))
    &&& depth(rows, open, close, (q.0, q.1 + 1)) == depth(rows, open, close, p)
}

/// The bracket at `p` and the one at `q` belong together.
pub open spec fn partners(rows: Seq<Seq<char>>, p: (int, int), q: (int, int)) -> bool {
    is_cell(rows, p) && match bracket(rows[p.0][p.1]) {
        Some((open, close, forward)) => if forward {
            brackets_pair(rows, open, close, p, q)
        } else {
            brackets_pair(rows, open, close, q, p)
        },
        None => false,
    }
}

fn bracket_of(c: char) -> (b: Option<(char, char, bool)>)
    ensures
        b == bracket(c),
{
    if c == '(' {
        Some(('(', ')', true))
    } else if c == ')' {
        Some(('(', ')', false))
    } else if c == '[' {
        Some(('[', ']', true))
    } else if c == ']' {
        Some(('[', ']', false))
    } else if c == '{' {
        Some(('{', '}', true))
    } else if c == '}' {
        Some(('{', '}', false))
    } else if c == '<' {
        Some(('<', '>', true))
    } else if c == '>' {
        Some(('<', '>', false))
    } else {
        None
    }
}

/// The closing bracket that belongs to the opening one at `from`.
fn find_closing<B: Query>(buf: &B, from: Position, open: char, close: char) -> (r: Option<Position>)
    requires
        is_cell(buf.rows(), from.spot()),
        buf.rows()[from.row as int][from.col as int] == open,
        open != close,
    ensures
        match r {
            Some(q) => brackets_pair(buf.rows(), open, close, from.spot(), q.spot()),
            None => forall|q: (int, int)|
                !#[trigger] brackets_pair(buf.rows(), open, close, from.spot(), q),
        },
{
    let n: usize = read_row_count(buf);
    let ghost rows = buf.rows();
    let ghost base = depth(rows, open, close, from.spot());
    let mut d: u128 = 0;
    let mut r: usize = from.row;
    let mut c: usize = from.col;
    loop
        invariant
            rows == buf.rows(),
            n == rows.len(),
            n <= u32::MAX,
            open != close,
            is_cell(rows, from.spot()),
            rows[from.row as int][from.col as int] == open,
            base == depth(rows, open, close, from.spot()),
            from.row <= r < n,
            is_place(rows, (r as int, c as int)),
            buffer::at_or_before(from.spot(), (r as int, c as int)),
            d == depth(rows, open, close, (r as int, c as int)) - base,
            d == 0 ==> (r == from.row && c == from.col),
            d <= (r - from.row) * 0x1_0000_0000_0000_0000 + c,
            deeper_between(rows, open, close, from.spot(), (r as int, c as int), base),
        decreases n - r,
    {
        let v = text::chars_of(read_line(buf, r));
        while c < v.len()
            invariant
                v@ == rows[r as int],
                rows == buf.rows(),
                n == rows.len(),
                n <= u32::MAX,
                open != close,
                is_cell(rows, from.spot()),
                rows[from.row as int][from.col as int] == open,
                base == depth(rows, open, close, from.spot()),
                from.row <= r < n,
                is_place(rows, (r as int, c as int)),
                buffer::at_or_before(from.spot(), (r as int, c as int)),
                d == depth(rows, open, close, (r as int, c as int)) - base,
                d == 0 ==> (r == from.row && c == from.col),
                d <= (r - from.row) * 0x1_0000_0000_0000_0000 + c,
                deeper_between(rows, open, close, from.spot(), (r as int, c as int), base),
            decreases v.len() - c,
        {
            let here = v[c];
            if here == open {
                d = d + 1;
            } else if here == close {
                d = d - 1;
                if d == 0 {
                    return Some(Position::new(r, c));
                }
            }
            c = c + 1;
            assert forall|i: int, j: int|
                is_place(rows, (i, j)) && strictly_before(from.spot(), (i, j))
                    && buffer::at_or_before((i, j), (r as int, c as int)) implies #[trigger] depth(
                rows,
                open,
                close,
                (i, j),
            ) > base by {
                if !(i == r && j == c) {
                    assert(buffer::at_or_before((i, j), (r as int, c - 1)));
                }
            }
        }
        if r == n - 1 {
            proof {
                assert forall|q: (int, int)|
                    !#[trigger] brackets_pair(rows, open, close, from.spot(), q) by {
                    if brackets_pair(rows, open, close, from.spot(), q) {
                        let e = depth(rows, open, close, (q.0, q.1 + 1));
                        assert(is_place(rows, (q.0, q.1 + 1)));
                        assert(e > base);
                    }
                }
            }
            return None;
        }
        proof {
            assert forall|i: int, j: int|
                is_place(rows, (i, j)) && strictly_before(from.spot(), (i, j))
                    && buffer::at_or_before((i, j), (r + 1, 0int)) implies #[trigger] depth(
                rows,
                open,
                close,
                (i, j),
            ) > base by {
                if i == r + 1 {
                    assert(j == 0);
                    assert(depth(rows, open, close, (i, j)) == depth(
                        rows,
                        open,
                        close,
                        (r as int, c as int),
                    ));
                } else {
                    assert(buffer::at_or_before((i, j), (r as int, c as int)));
                }
            }
        }
        r = r + 1;
        c = 0;
    }
}

/// The opening bracket that belongs to the closing one at `from`.
fn find_opening<B: Query>(buf: &B, from: Position, open: char, close: char) -> (r: Option<Position>)
    requires
        is_cell(buf.rows(), from.spot()),
        buf.rows()[from.row as int][from.col as int] == close,
        open != close,
    ensures
        match r {
            Some(p) => brackets_pair(buf.rows(), open, close, p.spot(), from.spot()),
            None => forall|p: (int, int)|
                !#[trigger] brackets_pair(buf.rows(), open, close, p, from.spot()),
        },
{
    let ghost rows = buf.rows();
    let ghost base = depth(rows, open, close, (from.row as int, from.col + 1));
    let mut d: u128 = 0;
    let mut r: usize = from.row;
    let count: usize = read_row_count(buf);
    let first = text::chars_of(read_line(buf, r));
    assert(from.col < first.len());
    let mut left: usize = from.col + 1;
    loop
        invariant
            rows == buf.rows(),
            count == rows.len(),
            count <= u32::MAX,
            open != close,
            is_cell(rows, from.spot()),
            rows[from.row as int][from.col as int] == close,
            base == depth(rows, open, close, (from.row as int, from.col + 1)),
            r <= from.row,
            is_place(rows, (r as int, left as int)),
            buffer::at_or_before((r as int, left as int), (from.row as int, from.col + 1)),
            d == depth(rows, open, close, (r as int, left as int)) - base,
            d == 0 ==> (r == from.row && left == from.col + 1),
            d + left <= (from.row - r + 1) * 0x1_0000_0000_0000_0000,
            forall|i: int, j: int|
                is_place(rows, (i, j)) && buffer::at_or_before((r as int, left as int), (i, j))
                    && buffer::at_or_before((i, j), from.spot()) ==> #[trigger] depth(
                    rows,
                    open,
                    close,
                    (i, j),
                ) > base,
        decreases r,
    {
        let v = text::chars_of(read_line(buf, r));
        while left > 0
            invariant
                v@ == rows[r as int],
                rows == buf.rows(),
                count == rows.len(),
                count <= u32::MAX,
                open != close,
                is_cell(rows, from.spot()),
                rows[from.row as int][from.col as int] == close,
                base == depth(rows, open, close, (from.row as int, from.col + 1)),
                r <= from.row,
                is_place(rows, (r as int, left as int)),
                buffer::at_or_before((r as int, left as int), (from.row as int, from.col + 1)),
                d == depth(rows, open, close, (r as int, left as int)) - base,
                d == 0 ==> (r == from.row && left == from.col + 1),
                d + left <= (from.row - r + 1) * 0x1_0000_0000_0000_0000,
                forall|i: int, j: int|
                    is_place(rows, (i, j)) && buffer::at_or_before((r as int, left as int), (i, j))
                        && buffer::at_or_before((i, j), from.spot()) ==> #[trigger] depth(
                        rows,
                        open,
                        close,
                        (i, j),
                    ) > base,
            decreases left,
        {
            left = left - 1;
            let here = v[left];
            if here == close {
                d = d + 1;
            } else if here == open {
                d = d - 1;
                if d == 0 {
                    proof {
                        let p = (r as int, left as int);
                        assert(depth(rows, open, close, (r as int, left + 1)) == depth(
                            rows,
                            open,
                            close,
                            p,
                        ) + 1);
                        assert forall|i: int, j: int|
                            is_place(rows, (i, j)) && strictly_before(p, (i, j))
                                && buffer::at_or_before((i, j), from.spot()) implies #[trigger] depth(
                            rows,
                            open,
                            close,
                            (i, j),
                        ) > base by {
                            assert(buffer::at_or_before((r as int, left + 1), (i, j)));
                        }
                    }
                    return Some(Position::new(r, left));
                }
            }
            assert forall|i: int, j: int|
                is_place(rows, (i, j)) && buffer::at_or_before((r as int, left as int), (i, j))
                    && buffer::at_or_before((i, j), from.spot()) implies #[trigger] depth(
                rows,
                open,
                close,
                (i, j),
            ) > base by {
                if i == r && j == left {
                    assert(depth(rows, open, close, (r as int, left + 1)) == depth(
                        rows,
                        open,
                        close,
                        (r as int, left as int),
                    ) + if here == open {
                        1int
                    } else if here == close {
                        -1
                    } else {
                        0
                    });
                } else {
                    assert(buffer::at_or_before((r as int, left + 1), (i, j)));
                }
            }
        }
        if r == 0 {
            proof {
                assert forall|p: (int, int)|
                    !#[trigger] brackets_pair(rows, open, close, p, from.spot()) by {
                    if brackets_pair(rows, open, close, p, from.spot()) {
                        let e = depth(rows, open, close, (p.0, p.1));
                        assert(is_place(rows, (p.0, p.1)));
                        assert(e > base);
                    }
                }
            }
            return None;
        }
        let above: usize = text::char_count(read_line(buf, r - 1));
        proof {
            assert forall|i: int, j: int|
                is_place(rows, (i, j)) && buffer::at_or_before((r - 1, above as int), (i, j))
                    && buffer::at_or_before((i, j), from.spot()) implies #[trigger] depth(
                rows,
                open,
                close,
                (i, j),
            ) > base by {
                if i == r - 1 {
                    assert(j == above);
                    assert(depth(rows, open, close, (r as int, 0int)) == depth(
                        rows,
                        open,
                        close,
                        (i, j),
                    ));
                } else {
                    assert(buffer::at_or_before((r as int, 0int), (i, j)));
                }
            }
        }
        r = r - 1;
        left = above;
    }
}

/// The cursor was sent from a bracket to the one it belongs to, or there was
/// none and nothing happened.
pub open spec fn bracket_jumped<B: Cursor>(b: B, a: B, moved: bool) -> bool {
    if moved {
        exists|q: (int, int)| #[trigger] partners(b.rows(), cursor_place(b), q) && sent(b, a, q)
    } else {
        &&& a == b
        &&& forall|q: (int, int)| !#[trigger] partners(b.rows(), cursor_place(b), q)
    }
}

/// `%`: from a bracket to the one it belongs to. Says whether there was one.
pub fn match_bracket<B: Cursor>(buf: &mut B) -> (moved: bool)
    ensures
        bracket_jumped(*old(buf), *final(buf), moved),
{
    let cursor = read_cursor(buf);
    let n: usize = read_row_count(buf);
    let line = read_line(buf, cursor.row);
    if cursor.row >= n || cursor.col >= text::char_count(line) {
        return false;
    }
    let (open, close, forward) = match bracket_of(line.get_char(cursor.col)) {
        Some(b) => b,
        None => {
            return false;
        },
    };
    let found = if forward {
        find_closing(buf, cursor, open, close)
    } else {
        find_opening(buf, cursor, open, close)
    };
    match found {
        Some(q) => {
            assert(partners(buf.rows(), cursor.spot(), q.spot()));
            write_cursor(buf, q);
            true
        },
        None => {
            assert forall|q: (int, int)| !#[trigger] partners(buf.rows(), cursor.spot(), q) by {
                if forward {
                    assert(!brackets_pair(buf.rows(), open, close, cursor.spot(), q));
                } else {
                    assert(!brackets_pair(buf.rows(), open, close, q, cursor.spot()));
                }
            }
            false
        },
    }
}

/// Brackets belong together mutually: from the partner the jump leads back.
pub proof fn law_match_is_mutual(rows: Seq<Seq<char>>, p: (int, int), q: (int, int))
    requires
        partners(rows, p, q),
    ensures
        partners(rows, q, p),
{
}

/// Two jumps between brackets lead back to where the first one started, as far
/// as the columns of the text count in 32 bits.
pub proof fn law_two_jumps_lead_back(
    start: hjkl_buffer::Buffer,
    there: hjkl_buffer::Buffer,
    back: hjkl_buffer::Buffer,
    moved: bool,
)
    requires
        bracket_jumped(start, there, true),
        bracket_jumped(there, back, moved),
        forall|i: int| 0 <= i < start.rows().len() ==> (#[trigger] start.rows()[i]).len() <= u32::MAX,
    ensures
        moved,
        back.at() == start.at(),
        back.rows() == start.rows(),
{
    let rows = start.rows();
    let p = cursor_place(start);
    let q = choose|q: (int, int)| #[trigger] partners(rows, p, q) && sent(start, there, q);
    law_match_is_mutual(rows, p, q);
    assert(cursor_place(there) == q);
    if moved {
        let r = choose|r: (int, int)| #[trigger] partners(rows, q, r) && sent(there, back, r);
        law_match_is_unique(rows, q, p, r);
    }
}

/// A bracket belongs together with one other bracket at most.
pub proof fn law_match_is_unique(
    rows: Seq<Seq<char>>,
    p: (int, int),
    q: (int, int),
    r: (int, int),
)
    requires
        partners(rows, p, q),
        partners(rows, p, r),
    ensures
        q == r,
{
    let (open, close, forward) = bracket(rows[p.0][p.1])->0;
    if forward {
        let a = depth(rows, open, close, (q.0, q.1 + 1));
        let b = depth(rows, open, close, (r.0, r.1 + 1));
        assert(is_place(rows, (q.0, q.1 + 1)) && is_place(rows, (r.0, r.1 + 1)));
        if strictly_before(q, r) {
            assert(buffer::at_or_before((q.0, q.1 + 1), r));
        } else if strictly_before(r, q) {
            assert(buffer::at_or_before((r.0, r.1 + 1), q));
        }
    } else {
        let a = depth(rows, open, close, (q.0, q.1));
        let b = depth(rows, open, close, (r.0, r.1));
        assert(is_place(rows, (q.0, q.1)) && is_place(rows, (r.0, r.1)));
    }
}

} // verus!
