//! The plain values the engine exchanges with its text store, and the model
//! of what an edit does to lines and what a fold does to rows.
use vstd::prelude::*;

use crate::text;

verus! {

// ── Plain values ────────────────────────────────────────────────────

/// A row and a column, both zero-based; the column counts characters.
#[derive(Debug, Clone, Copy, PartialEq, Eq, Structural, PartialOrd, Ord, Hash, Default)]
pub struct Position {
    pub row: usize,
    pub col: usize,
}

impl Position {
    /// The position at `row` and `col`.
    pub fn new(row: usize, col: usize) -> (p: Position)
        ensures
            p == (Position { row, col }),
    {
        Position { row, col }
    }

    /// The same place as a pair of integers.
    pub open spec fn spot(self) -> (int, int) {
        (self.row as int, self.col as int)
    }
}

/// How a row that is wider than the text area turns into screen rows.
#[derive(Debug, Clone, Copy, PartialEq, Eq, Structural, Default)]
pub enum Wrap {
    /// One screen row per line; the left side is clipped.
    #[default]
    Off,
    /// Break at the cell boundary.
    Char,
    /// Break after the last blank that fits.
    Word,
}

/// The visible region of a buffer.
#[derive(Debug, Clone, Copy, PartialEq, Eq, Structural, Default)]
pub struct Viewport {
    /// First visible row.
    pub top_row: usize,
    /// First visible column.
    pub top_col: usize,
    /// Columns of the region.
    pub width: u16,
    /// Rows of the region.
    pub height: u16,
    /// Soft-wrap mode.
    pub wrap: Wrap,
    /// Cells available to text once the gutter is taken off; 0 until known.
    pub text_width: u16,
    /// Display width of a tab.
    pub tab_width: u16,
}

/// The window of `size` lines that shows line `at`, moved as little as needed
/// from its start at `top`.
pub open spec fn scrolled(top: int, size: int, at: int) -> int {
    if at < top {
        at
    } else if at >= top + size {
        at + 1 - size
    } else {
        top
    }
}

/// Where the window of `size` lines starts that shows line `at`.
pub(crate) fn scroll_to(top: usize, size: u16, at: usize) -> (r: usize)
    requires
        size > 0,
    ensures
        r == scrolled(top as int, size as int, at as int),
{
    if at < top {
        at
    } else if at - top >= size as usize {
        at - (size as usize - 1)
    } else {
        top
    }
}

impl Viewport {
    /// A viewport at the origin, of no size yet.
    pub fn new() -> (v: Viewport)
        ensures
            v == (Viewport {
                top_row: 0,
                top_col: 0,
                width: 0,
                height: 0,
                wrap: Wrap::Off,
                text_width: 0,
                tab_width: 0,
            }),
    {
        Viewport {
            top_row: 0,
            top_col: 0,
            width: 0,
            height: 0,
            wrap: Wrap::Off,
            text_width: 0,
            tab_width: 0,
        }
    }

    /// The viewport moved as little as needed to show a place; one that has no
    /// size does not move.
    pub open spec fn showing(self, at: (int, int)) -> Viewport {
        if self.height == 0 || self.width == 0 {
            self
        } else {
            Viewport {
                top_row: scrolled(self.top_row as int, self.height as int, at.0) as usize,
                top_col: scrolled(self.top_col as int, self.width as int, at.1) as usize,
                ..self
            }
        }
    }

    /// Moves the viewport as little as needed to show `pos`.
    pub fn ensure_visible(&mut self, pos: Position)
        ensures
            *final(self) == old(self).showing(pos.spot()),
    {
        if self.height == 0 || self.width == 0 {
            return;
        }
        self.top_row = scroll_to(self.top_row, self.height, pos.row);
        self.top_col = scroll_to(self.top_col, self.width, pos.col);
    }
}

/// A range of rows that can be collapsed to its first row.
#[derive(Debug, Clone, Copy, PartialEq, Eq, Structural)]
pub struct Fold {
    /// First row of the range; it stays visible.
    pub start_row: usize,
    /// Last row of the range.
    pub end_row: usize,
    /// True when the rows after the first are hidden.
    pub closed: bool,
}

impl Fold {
    /// The fold as a triple.
    pub open spec fn triple(self) -> (int, int, bool) {
        (self.start_row as int, self.end_row as int, self.closed)
    }
}

/// Granularity of a deletion.
#[derive(Debug, Clone, Copy, PartialEq, Eq, Structural)]
pub enum MotionKind {
    /// Characters from the start up to the end.
    Char,
    /// Whole rows.
    Line,
    /// A rectangle, its last column included.
    Block,
}

/// What a visual mode selects.
#[derive(Debug, Clone, Copy, PartialEq, Eq, Structural)]
pub enum Selection {
    /// The characters between two places, both included.
    Char { anchor: Position, head: Position },
    /// The rows between two rows, both included.
    Line { anchor_row: usize, head_row: usize },
    /// The rectangle between two corners, both included.
    Block { anchor: Position, head: Position },
}

/// One change to a buffer.
#[derive(Debug, Clone, PartialEq, Eq)]
pub enum Edit {
    /// Insert one character.
    InsertChar { at: Position, ch: char },
    /// Insert text that may hold line breaks.
    InsertStr { at: Position, text: String },
    /// Delete what lies between two places.
    DeleteRange { start: Position, end: Position, kind: MotionKind },
    /// Join `count` rows onto `row`.
    JoinLines { row: usize, count: usize, with_space: bool },
    /// Split `row` at each of `cols`.
    SplitLines { row: usize, cols: Vec<usize>, inserted_space: bool },
    /// Put `with` in place of the characters from `start` to `end`.
    Replace { start: Position, end: Position, with: String },
    /// Insert one chunk per row, each at the same column.
    InsertBlock { at: Position, chunks: Vec<String> },
    /// Remove `widths[i]` characters on the `i`-th row, all from one column.
    DeleteBlockChunks { at: Position, widths: Vec<usize> },
}

// ── Model of lines ──────────────────────────────────────────────────

/// The pieces of `t` between its line breaks.
pub open spec fn split_text(t: Seq<char>) -> Seq<Seq<char>>
    decreases t.len(),
{
    if t.len() == 0 {
        seq![Seq::<char>::empty()]
    } else {
        let head = split_text(t.drop_last());
        if t.last() == '\n' {
            head.push(Seq::<char>::empty())
        } else {
            head.drop_last().push(head.last().push(t.last()))
        }
    }
}

/// The lines put together again, with a line break between each two.
pub open spec fn join_text(lines: Seq<Seq<char>>) -> Seq<char>
    decreases lines.len(),
{
    if lines.len() == 0 {
        Seq::<char>::empty()
    } else if lines.len() == 1 {
        lines[0]
    } else {
        join_text(lines.drop_last()) + seq!['\n'] + lines.last()
    }
}

/// The lines put together, each with its line break.
pub open spec fn terminated(lines: Seq<Seq<char>>) -> Seq<char>
    decreases lines.len(),
{
    if lines.len() == 0 {
        Seq::<char>::empty()
    } else {
        terminated(lines.drop_last()) + lines.last() + seq!['\n']
    }
}

/// Lines with their line breaks, followed by one more line, are that many
/// lines with a line break between each two.
pub proof fn lemma_join_terminated(lines: Seq<Seq<char>>, last: Seq<char>)
    ensures
        join_text(lines.push(last)) == terminated(lines) + last,
    decreases lines.len(),
{
    assert(lines.push(last).drop_last() =~= lines);
    if lines.len() > 0 {
        lemma_join_terminated(lines.drop_last(), lines.last());
        assert(lines.drop_last().push(lines.last()) =~= lines);
        assert(terminated(lines.drop_last()) + lines.last() + seq!['\n'] + last =~= join_text(
            lines,
        ) + seq!['\n'] + last);
    } else {
        assert(terminated(lines) + last =~= last);
    }
}

/// How many bytes the first `n` lines take, each with its line break.
pub open spec fn bytes_above(lines: Seq<Seq<char>>, n: int) -> nat
    decreases n,
{
    if n <= 0 {
        0
    } else {
        bytes_above(lines, n - 1) + text::byte_len(lines[n - 1]) + 1
    }
}

/// The lines above a row take no more bytes than the lines above a later one.
pub proof fn lemma_bytes_above_grows(lines: Seq<Seq<char>>, i: int, j: int)
    requires
        0 <= i <= j,
    ensures
        bytes_above(lines, i) + (j - i) <= bytes_above(lines, j),
    decreases j - i,
{
    if i < j {
        lemma_bytes_above_grows(lines, i, j - 1);
    }
}

/// A place on one of some lines, or right behind its last character.
pub open spec fn in_text(lines: Seq<Seq<char>>, at: (int, int)) -> bool {
    0 <= at.0 < lines.len() && 0 <= at.1 <= lines[at.0].len()
}

/// The place in `lines` closest to a row and a column: the row no further
/// than the last, the column no further than one past the end of that row.
pub open spec fn clamp(lines: Seq<Seq<char>>, at: (int, int)) -> (int, int) {
    let row = text::min(at.0, lines.len() - 1);
    (row, text::min(at.1, lines[row].len() as int))
}

/// True when `a` lies at or before `b` in the document.
pub open spec fn at_or_before(a: (int, int), b: (int, int)) -> bool {
    a.0 < b.0 || (a.0 == b.0 && a.1 <= b.1)
}

/// The first of two places in the document.
pub open spec fn earlier(a: (int, int), b: (int, int)) -> (int, int) {
    if at_or_before(a, b) {
        a
    } else {
        b
    }
}

/// The second of two places in the document.
pub open spec fn later(a: (int, int), b: (int, int)) -> (int, int) {
    if at_or_before(a, b) {
        b
    } else {
        a
    }
}

/// The generation counter after one more change.
pub open spec fn bumped(g: u64) -> u64 {
    if g == u64::MAX {
        0
    } else {
        (g + 1) as u64
    }
}

/// `lines` with `t` inserted at a place.
pub open spec fn spliced(lines: Seq<Seq<char>>, at: (int, int), t: Seq<char>) -> Seq<Seq<char>> {
    let line = lines[at.0];
    let col = text::min(at.1, line.len() as int);
    lines.take(at.0) + split_text(line.take(col) + t + line.skip(col)) + lines.skip(at.0 + 1)
}

/// Where text inserted at a place ends.
pub open spec fn inserted_end(at: (int, int), t: Seq<char>) -> (int, int) {
    let pieces = split_text(t);
    if pieces.len() > 1 {
        (at.0 + pieces.len() - 1, pieces.last().len() as int)
    } else {
        (at.0, at.1 + t.len())
    }
}

/// What inserting `t` at the place closest to `at` gives: the lines, and where
/// the inserted text starts and ends.
pub open spec fn insertion(lines: Seq<Seq<char>>, at: (int, int), t: Seq<char>) -> (
    Seq<Seq<char>>,
    (int, int),
    (int, int),
) {
    let place = clamp(lines, at);
    (spliced(lines, place, t), place, inserted_end(place, t))
}

/// `lines` without the characters from `start` up to `end`.
pub open spec fn cut(lines: Seq<Seq<char>>, start: (int, int), end: (int, int)) -> Seq<Seq<char>> {
    let first = lines[start.0];
    let last = lines[end.0];
    let kept = first.take(text::min(start.1, first.len() as int)) + last.skip(
        text::min(end.1, last.len() as int),
    );
    lines.take(start.0) + seq![kept] + lines.skip(end.0 + 1)
}

/// The text from `start` up to `end`, line breaks included.
pub open spec fn text_between(
    lines: Seq<Seq<char>>,
    start: (int, int),
    end: (int, int),
) -> Seq<char> {
    let first = lines[start.0];
    let last = lines[end.0];
    let from = text::min(start.1, first.len() as int);
    let to = text::min(end.1, last.len() as int);
    if start.0 == end.0 {
        first.subrange(from, to)
    } else {
        join_text(
            seq![first.skip(from)] + lines.subrange(start.0 + 1, end.0) + seq![last.take(to)],
        )
    }
}

/// What putting `t` in place of the text between two places gives: the lines,
/// and where the new text starts and ends.
pub open spec fn replacement(
    lines: Seq<Seq<char>>,
    a: (int, int),
    b: (int, int),
    t: Seq<char>,
) -> (Seq<Seq<char>>, (int, int), (int, int)) {
    insertion(cut(lines, earlier(a, b), later(a, b)), earlier(a, b), t)
}

/// `lines` without the rows from `lo` to `hi`, as far as there are such rows;
/// a buffer never runs out of lines, so one empty line takes the place of the
/// last.
pub open spec fn rows_removed(lines: Seq<Seq<char>>, lo: int, hi: int) -> Seq<Seq<char>> {
    let rest = lines.take(lo) + lines.skip(text::min(hi, lines.len() - 1) + 1);
    if rest.len() == 0 {
        seq![Seq::<char>::empty()]
    } else {
        rest
    }
}

/// The rows from `lo` to `hi` as text, each with its line break.
pub open spec fn rows_text(lines: Seq<Seq<char>>, lo: int, hi: int) -> Seq<char> {
    join_text(lines.subrange(lo, text::min(hi, lines.len() - 1) + 1)).push('\n')
}

/// The upper left corner of the rectangle between two places.
pub open spec fn block_corner(a: (int, int), b: (int, int)) -> (int, int) {
    (text::min(a.0, b.0), text::min(a.1, b.1))
}

/// `lines` without the rectangle between two places, both included.
pub open spec fn block_removed(lines: Seq<Seq<char>>, a: (int, int), b: (int, int)) -> Seq<
    Seq<char>,
> {
    Seq::new(
        lines.len(),
        |i: int|
            if text::min(a.0, b.0) <= i <= text::max(a.0, b.0) {
                columns_removed(lines[i], text::min(a.1, b.1), text::max(a.1, b.1) + 1)
            } else {
                lines[i]
            },
    )
}

/// The rectangle between two places, row by row.
pub open spec fn block_text(lines: Seq<Seq<char>>, a: (int, int), b: (int, int)) -> Seq<
    Seq<char>,
> {
    Seq::new(
        (text::max(a.0, b.0) - text::min(a.0, b.0) + 1) as nat,
        |i: int|
            columns(
                lines[text::min(a.0, b.0) + i],
                text::min(a.1, b.1),
                text::max(a.1, b.1) + 1,
            ),
    )
}

/// `lines` without `widths[i]` columns from column `at.1` of row `at.0 + i` on.
pub open spec fn chunks_removed(
    lines: Seq<Seq<char>>,
    at: (int, int),
    widths: Seq<usize>,
) -> Seq<Seq<char>> {
    Seq::new(
        lines.len(),
        |i: int|
            if at.0 <= i < at.0 + widths.len() {
                columns_removed(lines[i], at.1, at.1 + widths[i - at.0])
            } else {
                lines[i]
            },
    )
}

/// The columns that `chunks_removed` takes out, row by row.
pub open spec fn chunks_text(lines: Seq<Seq<char>>, at: (int, int), widths: Seq<usize>) -> Seq<
    Seq<char>,
> {
    Seq::new(widths.len(), |i: int| columns(lines[at.0 + i], at.1, at.1 + widths[i]))
}

/// The lengths of the given pieces.
pub open spec fn widths(parts: Seq<Seq<char>>) -> Seq<usize> {
    Seq::new(parts.len(), |i: int| parts[i].len() as usize)
}

/// A row of `lines`: `row`, or the last one.
pub open spec fn row_clamped(lines: Seq<Seq<char>>, row: int) -> int {
    text::min(row, lines.len() - 1)
}

/// How many rows a join of `count` takes: at least one, as far as there are.
pub open spec fn rows_to_join(lines: Seq<Seq<char>>, row: int, count: int) -> int {
    text::min(text::max(count, 1), lines.len() - 1 - row_clamped(lines, row))
}

/// `lines` with `count` rows joined onto `row`.
pub open spec fn rows_joined(lines: Seq<Seq<char>>, row: int, count: int, space: bool) -> Seq<
    Seq<char>,
> {
    let at = row_clamped(lines, row);
    let n = rows_to_join(lines, row, count);
    lines.take(at) + seq![joined(lines, at, n as nat, space)] + lines.skip(at + n + 1)
}

/// The columns at which the rows of a join meet.
pub open spec fn join_cols(lines: Seq<Seq<char>>, row: int, count: int, space: bool) -> Seq<
    usize,
> {
    let at = row_clamped(lines, row);
    Seq::new(
        rows_to_join(lines, row, count) as nat,
        |i: int| joined(lines, at, i as nat, space).len() as usize,
    )
}

/// `lines` with `row` split at each column of `cols`.
pub open spec fn row_split(lines: Seq<Seq<char>>, row: int, cols: Seq<usize>, space: bool) -> Seq<
    Seq<char>,
> {
    let at = row_clamped(lines, row);
    lines.take(at) + split_at_cols(lines[at], cols, space) + lines.skip(at + 1)
}

/// A line without its columns from `left` up to `right`.
pub open spec fn columns_removed(line: Seq<char>, left: int, right: int) -> Seq<char> {
    line.take(text::min(left, line.len() as int)) + line.skip(text::min(right, line.len() as int))
}

/// The columns of a line from `left` up to `right`.
pub open spec fn columns(line: Seq<char>, left: int, right: int) -> Seq<char> {
    line.subrange(text::min(left, line.len() as int), text::min(right, line.len() as int))
}

/// Row `row` with `n` rows after it joined on, a space between two that are
/// not empty where `space` asks for it.
pub open spec fn joined(lines: Seq<Seq<char>>, row: int, n: nat, space: bool) -> Seq<char>
    decreases n,
{
    if n == 0 {
        lines[row]
    } else {
        let head = joined(lines, row, (n - 1) as nat, space);
        let next = lines[row + n];
        if space && head.len() > 0 && next.len() > 0 {
            head + seq![' '] + next
        } else {
            head + next
        }
    }
}

/// The pieces of `line` cut at each column of `cols`, from the right; a piece
/// loses its leading space where `space` says that one was put there.
pub open spec fn split_at_cols(line: Seq<char>, cols: Seq<usize>, space: bool) -> Seq<Seq<char>>
    decreases cols.len(),
{
    if cols.len() == 0 {
        seq![line]
    } else {
        let col = text::min(cols.last() as int, line.len() as int);
        let tail = line.skip(col);
        let kept = if space && tail.len() > 0 && tail[0] == ' ' {
            tail.skip(1)
        } else {
            tail
        };
        split_at_cols(line.take(col), cols.drop_last(), space).push(kept)
    }
}

/// A line filled with spaces up to column `col`.
pub open spec fn padded(line: Seq<char>, col: int) -> Seq<char> {
    if line.len() < col {
        line + Seq::new((col - line.len()) as nat, |i: int| ' ')
    } else {
        line
    }
}

/// `lines` after the chunks were inserted one row after the other, each at
/// column `at.1` of row `at.0 + i`.
pub open spec fn block_inserted(
    lines: Seq<Seq<char>>,
    at: (int, int),
    chunks: Seq<Seq<char>>,
) -> Seq<Seq<char>>
    decreases chunks.len(),
{
    if chunks.len() == 0 {
        lines
    } else {
        let before = block_inserted(lines, at, chunks.drop_last());
        let row = at.0 + chunks.len() - 1;
        let wide = before.update(row, padded(before[row], at.1));
        spliced(wide, (row, at.1), chunks.last())
    }
}

/// Every chunk of a block insertion has a row to go to, and that row can be
/// filled up to the column of the block.
pub open spec fn block_fits(
    lines: Seq<Seq<char>>,
    at: (int, int),
    chunks: Seq<Seq<char>>,
) -> bool {
    forall|i: int|
        0 <= i < chunks.len() ==> chunk_fits(
            #[trigger] block_inserted(lines, at, chunks.take(i)),
            at.0 + i,
            at.1,
        )
}

/// There is a row `row`, and a string can hold it filled up to column `col`.
pub open spec fn chunk_fits(lines: Seq<Seq<char>>, row: int, col: int) -> bool {
    &&& row < lines.len()
    &&& lines[row].len() < col ==> text::byte_len(lines[row]) + (col - lines[row].len())
        <= isize::MAX
}

/// The texts of a list of strings.
pub open spec fn texts(v: Seq<String>) -> Seq<Seq<char>> {
    Seq::new(v.len(), |i: int| v[i]@)
}

// ── Model of folds ──────────────────────────────────────────────────

/// The index of the first item that `p` accepts, or the length of `s`.
pub open spec fn first_where<A>(s: Seq<A>, p: spec_fn(A) -> bool) -> int
    decreases s.len(),
{
    if s.len() == 0 || p(s[0]) {
        0
    } else {
        1 + first_where(s.drop_first(), p)
    }
}

/// The first index at which `p` holds is the one `first_where` names.
pub proof fn lemma_first_where<A>(s: Seq<A>, p: spec_fn(A) -> bool, i: int)
    requires
        0 <= i <= s.len(),
        forall|k: int| 0 <= k < i ==> !p(#[trigger] s[k]),
        i < s.len() ==> p(s[i]),
    ensures
        first_where(s, p) == i,
    decreases i,
{
    if i > 0 {
        assert forall|k: int| 0 <= k < i - 1 implies !p(#[trigger] s.drop_first()[k]) by {
            assert(s.drop_first()[k] == s[k + 1]);
        }
        lemma_first_where(s.drop_first(), p, i - 1);
    }
}

/// `first_where` is an index of the sequence or its length.
pub proof fn lemma_first_where_range<A>(s: Seq<A>, p: spec_fn(A) -> bool)
    ensures
        0 <= first_where(s, p) <= s.len(),
        first_where(s, p) < s.len() ==> p(s[first_where(s, p)]),
        forall|k: int| 0 <= k < first_where(s, p) ==> !p(#[trigger] s[k]),
    decreases s.len(),
{
    if s.len() > 0 && !p(s[0]) {
        lemma_first_where_range(s.drop_first(), p);
        let i = first_where(s.drop_first(), p);
        assert forall|k: int| 0 <= k < i + 1 implies !p(#[trigger] s[k]) by {
            if k > 0 {
                assert(s[k] == s.drop_first()[k - 1]);
            }
        }
    }
}

/// A row as an integer.
pub open spec fn as_row(r: Option<usize>) -> Option<int> {
    match r {
        Some(n) => Some(n as int),
        None => None,
    }
}

/// A fold's triple over integers.
pub open spec fn as_fold(r: Option<(usize, usize, bool)>) -> Option<(int, int, bool)> {
    match r {
        Some(f) => Some((f.0 as int, f.1 as int, f.2)),
        None => None,
    }
}

/// True when a fold's range holds `row`.
pub open spec fn covers(f: (int, int, bool), row: int) -> bool {
    f.0 <= row <= f.1
}

/// True when `row` is the first row of a fold.
pub open spec fn starts_at(f: (int, int, bool), row: int) -> bool {
    f.0 == row
}

/// True when a fold starts further down than `row`.
pub open spec fn starts_after(f: (int, int, bool), row: int) -> bool {
    f.0 > row
}

/// True when a fold is closed and `row` lies in it after its first row.
pub open spec fn hides(f: (int, int, bool), row: int) -> bool {
    f.2 && f.0 < row <= f.1
}

/// True when some fold hides `row`.
pub open spec fn hidden(folds: Seq<(int, int, bool)>, row: int) -> bool {
    exists|i: int| 0 <= i < folds.len() && hides(#[trigger] folds[i], row)
}

/// The index of the first fold that covers `row`, or the number of folds.
pub open spec fn fold_index(folds: Seq<(int, int, bool)>, row: int) -> int {
    first_where(folds, |f: (int, int, bool)| covers(f, row))
}

/// The first fold that covers `row`.
pub open spec fn fold_at(folds: Seq<(int, int, bool)>, row: int) -> Option<(int, int, bool)> {
    let i = fold_index(folds, row);
    if i < folds.len() {
        Some(folds[i])
    } else {
        None
    }
}

/// The first row after `row` and below `rows` that no fold hides.
pub open spec fn next_visible(folds: Seq<(int, int, bool)>, rows: int, row: int) -> Option<int>
    decreases rows - row,
{
    if row + 1 >= rows {
        None
    } else if hidden(folds, row + 1) {
        next_visible(folds, rows, row + 1)
    } else {
        Some(row + 1)
    }
}

/// The last row before `row` that no fold hides.
pub open spec fn prev_visible(folds: Seq<(int, int, bool)>, row: int) -> Option<int>
    decreases row,
{
    if row <= 0 {
        None
    } else if hidden(folds, row - 1) {
        prev_visible(folds, row - 1)
    } else {
        Some(row - 1)
    }
}

/// The folds of a buffer of `rows` rows after one more was added: in place of
/// the one with the same first row, or before the first that starts later.
pub open spec fn fold_added(
    folds: Seq<(int, int, bool)>,
    rows: int,
    start: int,
    end: int,
    closed: bool,
) -> Seq<(int, int, bool)> {
    let fold = (start, text::min(end, rows - 1), closed);
    let same = first_where(folds, |f: (int, int, bool)| starts_at(f, start));
    if end < start || start >= rows {
        folds
    } else if same < folds.len() {
        folds.update(same, fold)
    } else {
        folds.insert(first_where(folds, |f: (int, int, bool)| starts_after(f, start)), fold)
    }
}

/// The folds without the first one that covers `row`.
pub open spec fn fold_removed(folds: Seq<(int, int, bool)>, row: int) -> Seq<(int, int, bool)> {
    let i = fold_index(folds, row);
    if i < folds.len() {
        folds.remove(i)
    } else {
        folds
    }
}

/// The folds with the first one that covers `row` closed or opened.
pub open spec fn fold_set(
    folds: Seq<(int, int, bool)>,
    row: int,
    closed: bool,
) -> Seq<(int, int, bool)> {
    let i = fold_index(folds, row);
    if i < folds.len() {
        folds.update(i, (folds[i].0, folds[i].1, closed))
    } else {
        folds
    }
}

/// The folds with the first one that covers `row` flipped.
pub open spec fn fold_toggled(folds: Seq<(int, int, bool)>, row: int) -> Seq<(int, int, bool)> {
    let i = fold_index(folds, row);
    if i < folds.len() {
        folds.update(i, (folds[i].0, folds[i].1, !folds[i].2))
    } else {
        folds
    }
}

/// The folds with every one closed or opened.
pub open spec fn folds_set(folds: Seq<(int, int, bool)>, closed: bool) -> Seq<(int, int, bool)> {
    Seq::new(folds.len(), |i: int| (folds[i].0, folds[i].1, closed))
}

/// The folds that have no row in common with `start..=end`.
pub open spec fn folds_outside(
    folds: Seq<(int, int, bool)>,
    start: int,
    end: int,
) -> Seq<(int, int, bool)> {
    folds.filter(|f: (int, int, bool)| f.1 < start || f.0 > end)
}

} // verus!
