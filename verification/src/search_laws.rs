//! What searches promise: which match a search comes to from the cursor, in either
//! direction, around the end of the text or not.
use hjkl_buffer::Buffer as RopeBuffer;
use vstd::prelude::*;

use crate::buffer;
use crate::buffer_impl;
use crate::pattern;
use crate::rope;
use crate::search;
use crate::surface::{Cursor, Query};
use crate::text;
use crate::types::Pos;

verus! {

/// A text of as many lines and columns as 32 bits count, with the cursor in it; the
/// matches of each of its lines are in order.
pub open spec fn searchable(b: RopeBuffer, re: regex::Regex) -> bool {
    &&& 0 < rope::buffer_lines(b).len() < u32::MAX
    &&& buffer::in_text(rope::buffer_lines(b), rope::buffer_cursor(b))
    &&& forall|i: int|
        0 <= i < rope::buffer_lines(b).len() ==> {
            let line = #[trigger] rope::buffer_lines(b)[i];
            &&& line.len() < u32::MAX
            &&& text::byte_len(line) <= usize::MAX
            &&& pattern::in_order(pattern::matches_in(re, line), text::byte_len(line) as int)
        }
}

/// The byte at which column `c` of a line starts.
pub open spec fn starts_at(line: Seq<char>, c: int, byte: int) -> bool {
    0 <= c <= line.len() && text::byte_len(line.take(c)) == byte
}

/// Row `k` has no match, when it is read from its start.
pub open spec fn without_first(lines: Seq<Seq<char>>, re: regex::Regex, k: int) -> bool {
    pattern::match_from(re, lines[k], 0) is None
}

/// Row `k` has no matches.
pub open spec fn without_any(lines: Seq<Seq<char>>, re: regex::Regex, k: int) -> bool {
    pattern::matches_in(re, lines[k]).len() == 0
}

/// A match starts at a column: the place of the match is that column of its row.
proof fn lemma_range(lines: Seq<Seq<char>>, j: int, m: (usize, usize), c: int)
    requires
        0 <= j < lines.len(),
        starts_at(lines[j], c, m.0 as int),
    ensures
        buffer_impl::match_range(lines[j], j, m).start == buffer_impl::as_pos((j, c)),
{
    text::lemma_col_at_byte_inverse(lines[j], c);
}

/// Going down from row `r`, the first row with a match is where it is found.
proof fn lemma_first_below(
    lines: Seq<Seq<char>>,
    re: regex::Regex,
    r: int,
    left: nat,
    j: int,
    m: (usize, usize),
)
    requires
        0 <= r <= j < lines.len(),
        j - r < left,
        forall|k: int| r <= k < j ==> #[trigger] without_first(lines, re, k),
        pattern::match_from(re, lines[j], 0) == Some(m),
    ensures
        buffer_impl::first_match_from(lines, re, r, left) == Some(
            buffer_impl::match_range(lines[j], j, m),
        ),
    decreases j - r,
{
    if r < j {
        assert(without_first(lines, re, r));
        lemma_first_below(lines, re, r + 1, (left - 1) as nat, j, m);
    }
}

/// Rows without a match are passed over, up to the end of the text.
proof fn lemma_none_below(lines: Seq<Seq<char>>, re: regex::Regex, r: int, left: nat)
    requires
        0 <= r < lines.len(),
        lines.len() - r <= left,
        forall|k: int| r <= k < lines.len() ==> #[trigger] without_first(lines, re, k),
    ensures
        buffer_impl::first_match_from(lines, re, r, left) == buffer_impl::first_match_from(
            lines,
            re,
            0,
            (left - (lines.len() - r)) as nat,
        ),
    decreases lines.len() - r,
{
    assert(without_first(lines, re, r));
    if r + 1 < lines.len() {
        lemma_none_below(lines, re, r + 1, (left - 1) as nat);
    }
}

/// What is found on the first rows lies on one of them.
proof fn lemma_found_on_top(lines: Seq<Seq<char>>, re: regex::Regex, r: int, left: nat)
    requires
        0 <= r,
        r + left <= lines.len() <= u32::MAX,
    ensures
        buffer_impl::first_match_from(lines, re, r, left) matches Some(m) ==> m.start.line < r
            + left,
    decreases left,
{
    let next = buffer_impl::row_after(r, lines.len() as int);
    assert(buffer_impl::first_match_from(lines, re, next, 0) is None);
    if left > 1 && without_first(lines, re, r) {
        lemma_found_on_top(lines, re, r + 1, (left - 1) as nat);
    }
}

/// Going up from row `r`, the last match of the first row with one is found.
proof fn lemma_last_above(
    lines: Seq<Seq<char>>,
    re: regex::Regex,
    row: int,
    offset: int,
    j: int,
)
    requires
        0 <= j <= row - offset,
        0 < offset,
        row < lines.len(),
        forall|k: int| j < k <= row - offset ==> #[trigger] without_any(lines, re, k),
        pattern::matches_in(re, lines[j]).len() > 0,
    ensures
        buffer_impl::last_match_before(lines, re, row, offset) == Some(
            buffer_impl::match_range(lines[j], j, pattern::matches_in(re, lines[j]).last()),
        ),
    decreases row - offset - j,
{
    if j < row - offset {
        assert(without_any(lines, re, row - offset));
        lemma_last_above(lines, re, row, offset + 1, j);
    }
}

/// Rows without a match are passed over, up to the start of the text.
proof fn lemma_none_above(lines: Seq<Seq<char>>, re: regex::Regex, row: int, offset: int)
    requires
        0 < offset <= row + 1,
        0 <= row < lines.len(),
        forall|k: int| 0 <= k <= row - offset ==> #[trigger] without_any(lines, re, k),
    ensures
        buffer_impl::last_match_before(lines, re, row, offset) == buffer_impl::last_match_before(
            lines,
            re,
            row,
            row + 1,
        ),
    decreases row + 1 - offset,
{
    if offset <= row {
        assert(without_any(lines, re, row - offset));
        lemma_none_above(lines, re, row, offset + 1);
    }
}

/// Around the start of the text, the search goes on at its last row.
proof fn lemma_last_around(
    lines: Seq<Seq<char>>,
    re: regex::Regex,
    row: int,
    offset: int,
    j: int,
)
    requires
        0 <= row < j < lines.len(),
        row < offset <= row + lines.len() - j,
        forall|k: int|
            j < k <= row + lines.len() - offset ==> #[trigger] without_any(lines, re, k),
        pattern::matches_in(re, lines[j]).len() > 0,
    ensures
        buffer_impl::last_match_before(lines, re, row, offset) == Some(
            buffer_impl::match_range(lines[j], j, pattern::matches_in(re, lines[j]).last()),
        ),
    decreases row + lines.len() - offset - j,
{
    if j < row + lines.len() - offset {
        assert(without_any(lines, re, row + lines.len() - offset));
        lemma_last_around(lines, re, row, offset + 1, j);
    }
}

/// What is found around the start of the text lies below the row of the search.
proof fn lemma_found_at_bottom(lines: Seq<Seq<char>>, re: regex::Regex, row: int, offset: int)
    requires
        0 <= row < offset,
        row < lines.len() <= u32::MAX,
    ensures
        buffer_impl::last_match_before(lines, re, row, offset) matches Some(m) ==> m.start.line
            > row,
    decreases lines.len() - offset,
{
    if offset < lines.len() {
        lemma_found_at_bottom(lines, re, row, offset + 1);
    }
}

proof fn lemma_next_row(row: int, total: int)
    requires
        0 <= row < total,
    ensures
        (row + 1) % total == if row + 1 < total {
            row + 1
        } else {
            0
        },
{
    if row + 1 < total {
        assert((row + 1) % total == row + 1) by (nonlinear_arith)
            requires
                0 <= row,
                row + 1 < total,
        ;
    } else {
        assert(total % total == 0) by (nonlinear_arith)
            requires
                total > 0,
        ;
    }
}

/// A search forward comes to the next match of the cursor's row, read from the
/// cursor on, or from one column behind it where the match at the cursor is left
/// out. Whether it may wrap makes no difference then.
pub proof fn law_search_on_the_row(
    b: RopeBuffer,
    re: regex::Regex,
    wrap: bool,
    skip: bool,
    from: usize,
    m: (usize, usize),
    c: int,
)
    requires
        searchable(b, re),
        ({
            let (row, col) = rope::buffer_cursor(b);
            let line = rope::buffer_lines(b)[row];
            let first = if skip { col + 1 } else { col };
            &&& first <= line.len() ==> starts_at(line, first, from as int)
            &&& first > line.len() ==> from == text::byte_len(line)
            &&& pattern::match_from(re, line, from) == Some(m)
            &&& starts_at(line, c, m.0 as int)
            &&& first <= c
        }),
    ensures
        search::search_target(b, Some(re), wrap, true, skip) == Some(
            Pos { line: rope::buffer_cursor(b).0 as u32, col: c as u32 },
        ),
{
    let lines = rope::buffer_lines(b);
    let (row, col) = rope::buffer_cursor(b);
    let line = lines[row];
    lemma_range(lines, row, m, c);
    assert(line.take(line.len() as int) =~= line);
}

/// Where the rest of the cursor's row has no match, a search forward comes to the
/// first match of the nearest row below that has one.
pub proof fn law_search_goes_down(
    b: RopeBuffer,
    re: regex::Regex,
    wrap: bool,
    skip: bool,
    from: usize,
    j: int,
    m: (usize, usize),
    c: int,
)
    requires
        searchable(b, re),
        ({
            let (row, col) = rope::buffer_cursor(b);
            let lines = rope::buffer_lines(b);
            let line = lines[row];
            let first = if skip { col + 1 } else { col };
            &&& first <= line.len() ==> starts_at(line, first, from as int)
            &&& first > line.len() ==> from == text::byte_len(line)
            &&& pattern::match_from(re, line, from) is None
            &&& row < j < lines.len()
            &&& forall|k: int| row < k < j ==> #[trigger] without_first(lines, re, k)
            &&& pattern::match_from(re, lines[j], 0) == Some(m)
            &&& starts_at(lines[j], c, m.0 as int)
        }),
    ensures
        search::search_target(b, Some(re), wrap, true, skip) == Some(
            Pos { line: j as u32, col: c as u32 },
        ),
{
    let lines = rope::buffer_lines(b);
    let (row, col) = rope::buffer_cursor(b);
    let line = lines[row];
    assert(line.take(line.len() as int) =~= line);
    lemma_next_row(row, lines.len() as int);
    lemma_first_below(lines, re, row + 1, (lines.len() - 1) as nat, j, m);
    lemma_range(lines, j, m, c);
}

/// Where neither the rest of the cursor's row nor a row below has a match, a search
/// forward that wraps comes to the first match of the first row that has one, if
/// that lies above the cursor's row; one that does not wrap finds nothing.
pub proof fn law_search_goes_around(
    b: RopeBuffer,
    re: regex::Regex,
    skip: bool,
    from: usize,
    j: int,
    m: (usize, usize),
    c: int,
)
    requires
        searchable(b, re),
        ({
            let (row, col) = rope::buffer_cursor(b);
            let lines = rope::buffer_lines(b);
            let line = lines[row];
            let first = if skip { col + 1 } else { col };
            &&& first <= line.len() ==> starts_at(line, first, from as int)
            &&& first > line.len() ==> from == text::byte_len(line)
            &&& pattern::match_from(re, line, from) is None
            &&& forall|k: int| row < k < lines.len() ==> #[trigger] without_first(lines, re, k)
        }),
    ensures
        search::search_target(b, Some(re), false, true, skip) is None,
        ({
            let (row, col) = rope::buffer_cursor(b);
            let lines = rope::buffer_lines(b);
            &&& 0 <= j < row
            &&& forall|k: int| 0 <= k < j ==> #[trigger] without_first(lines, re, k)
            &&& pattern::match_from(re, lines[j], 0) == Some(m)
            &&& starts_at(lines[j], c, m.0 as int)
        }) ==> search::search_target(b, Some(re), true, true, skip) == Some(
            Pos { line: j as u32, col: c as u32 },
        ),
{
    let lines = rope::buffer_lines(b);
    let (row, col) = rope::buffer_cursor(b);
    let line = lines[row];
    let n = lines.len() as int;
    assert(line.take(line.len() as int) =~= line);
    lemma_next_row(row, n);
    if row + 1 < n {
        lemma_none_below(lines, re, row + 1, (n - 1) as nat);
    }
    lemma_found_on_top(lines, re, 0, row as nat);
    if 0 <= j < row && starts_at(lines[j], c, m.0 as int) && pattern::match_from(re, lines[j], 0)
        == Some(m) && forall|k: int| 0 <= k < j ==> #[trigger] without_first(lines, re, k) {
        lemma_first_below(lines, re, 0, row as nat, j, m);
        lemma_range(lines, j, m, c);
    }
}

proof fn lemma_up_to(ms: Seq<(usize, usize)>, byte: usize, i: int)
    requires
        forall|x: int, y: int| 0 <= x < y < ms.len() ==> (#[trigger] ms[x]).0 < (#[trigger] ms[y]).0,
        0 <= i <= ms.len(),
        i > 0 ==> ms[i - 1].0 <= byte,
        i < ms.len() ==> ms[i].0 > byte,
    ensures
        buffer_impl::last_up_to(ms, byte) == if i == 0 {
            None::<(usize, usize)>
        } else {
            Some(ms[i - 1])
        },
{
    let p = |m: (usize, usize)| m.0 > byte;
    assert forall|k: int| 0 <= k < i implies !p(#[trigger] ms[k]) by {
        if k < i - 1 {
            assert(ms[k].0 < ms[i - 1].0);
        }
    }
    buffer::lemma_first_where(ms, p, i);
}

/// A search backward comes to the last match of the cursor's row that starts at the
/// cursor or before it, or before it only where the match at the cursor is left
/// out. Whether it may wrap makes no difference then.
pub proof fn law_search_back_on_the_row(
    b: RopeBuffer,
    re: regex::Regex,
    wrap: bool,
    skip: bool,
    i: int,
    c: int,
)
    requires
        searchable(b, re),
        ({
            let (row, col) = rope::buffer_cursor(b);
            let line = rope::buffer_lines(b)[row];
            let ms = pattern::matches_in(re, line);
            let last = if skip { col - 1 } else { col };
            &&& 0 <= c <= last
            &&& 0 <= i < ms.len()
            &&& starts_at(line, c, ms[i].0 as int)
            &&& i + 1 < ms.len() ==> text::byte_len(line.take(last)) < ms[i + 1].0
        }),
    ensures
        search::search_target(b, Some(re), wrap, false, skip) == Some(
            Pos { line: rope::buffer_cursor(b).0 as u32, col: c as u32 },
        ),
{
    let lines = rope::buffer_lines(b);
    let (row, col) = rope::buffer_cursor(b);
    let line = lines[row];
    let ms = pattern::matches_in(re, line);
    let last = if skip { col - 1 } else { col };
    let byte = buffer_impl::byte_at_col(line, last);
    text::lemma_byte_len_prefix(line, c, last);
    text::lemma_byte_len_prefix(line, last, line.len() as int);
    assert(line.take(line.len() as int) =~= line);
    lemma_up_to(ms, byte, i + 1);
    lemma_range(lines, row, ms[i], c);
}

/// Where no match of the cursor's row starts at the cursor or before it (before it,
/// where the match at the cursor is left out), a search backward comes to the last
/// match of the nearest row above that has one.
pub proof fn law_search_goes_up(
    b: RopeBuffer,
    re: regex::Regex,
    wrap: bool,
    skip: bool,
    j: int,
    c: int,
)
    requires
        searchable(b, re),
        ({
            let (row, col) = rope::buffer_cursor(b);
            let lines = rope::buffer_lines(b);
            let ms = pattern::matches_in(re, lines[row]);
            let last = if skip { col - 1 } else { col };
            &&& ms.len() > 0 && last >= 0 ==> text::byte_len(lines[row].take(last)) < ms[0].0
            &&& 0 <= j < row
            &&& forall|k: int| j < k < row ==> #[trigger] without_any(lines, re, k)
            &&& pattern::matches_in(re, lines[j]).len() > 0
            &&& starts_at(lines[j], c, pattern::matches_in(re, lines[j]).last().0 as int)
        }),
    ensures
        search::search_target(b, Some(re), wrap, false, skip) == Some(
            Pos { line: j as u32, col: c as u32 },
        ),
{
    let lines = rope::buffer_lines(b);
    let (row, col) = rope::buffer_cursor(b);
    let line = lines[row];
    let ms = pattern::matches_in(re, line);
    let last = if skip { col - 1 } else { col };
    let above = pattern::matches_in(re, lines[j]);
    lemma_range(lines, j, above.last(), c);
    if last >= 0 {
        text::lemma_byte_len_prefix(line, last, line.len() as int);
        assert(line.take(line.len() as int) =~= line);
        lemma_up_to(ms, buffer_impl::byte_at_col(line, last), 0);
        lemma_last_above(lines, re, row, 1, j);
    } else {
        let up = lines[row - 1];
        let us = pattern::matches_in(re, up);
        assert(up.take(up.len() as int) =~= up);
        lemma_up_to(us, buffer_impl::byte_at_col(up, u32::MAX as int), us.len() as int);
        if j < row - 1 {
            assert(without_any(lines, re, row - 1));
            lemma_last_above(lines, re, row - 1, 1, j);
        }
    }
}

/// Where there is no match before the cursor (none at it either, unless that one is
/// left out), a search backward that wraps comes to the last match of the last row
/// that has one, if that lies below the cursor's row; one that does not wrap finds
/// nothing.
pub proof fn law_search_back_goes_around(
    b: RopeBuffer,
    re: regex::Regex,
    skip: bool,
    j: int,
    c: int,
)
    requires
        searchable(b, re),
        ({
            let (row, col) = rope::buffer_cursor(b);
            let lines = rope::buffer_lines(b);
            let ms = pattern::matches_in(re, lines[row]);
            let last = if skip { col - 1 } else { col };
            &&& last >= 0
            &&& ms.len() > 0 ==> text::byte_len(lines[row].take(last)) < ms[0].0
            &&& forall|k: int| 0 <= k < row ==> #[trigger] without_any(lines, re, k)
        }),
    ensures
        search::search_target(b, Some(re), false, false, skip) is None,
        ({
            let (row, col) = rope::buffer_cursor(b);
            let lines = rope::buffer_lines(b);
            &&& row < j < lines.len()
            &&& forall|k: int| j < k < lines.len() ==> #[trigger] without_any(lines, re, k)
            &&& pattern::matches_in(re, lines[j]).len() > 0
            &&& starts_at(lines[j], c, pattern::matches_in(re, lines[j]).last().0 as int)
        }) ==> search::search_target(b, Some(re), true, false, skip) == Some(
            Pos { line: j as u32, col: c as u32 },
        ),
{
    let lines = rope::buffer_lines(b);
    let (row, col) = rope::buffer_cursor(b);
    let line = lines[row];
    let ms = pattern::matches_in(re, line);
    let last = if skip { col - 1 } else { col };
    text::lemma_byte_len_prefix(line, last, line.len() as int);
    assert(line.take(line.len() as int) =~= line);
    lemma_up_to(ms, buffer_impl::byte_at_col(line, last), 0);
    lemma_none_above(lines, re, row, 1);
    lemma_found_at_bottom(lines, re, row, row + 1);
    if row < j < lines.len() && pattern::matches_in(re, lines[j]).len() > 0 && starts_at(
        lines[j],
        c,
        pattern::matches_in(re, lines[j]).last().0 as int,
    ) && forall|k: int| j < k < lines.len() ==> #[trigger] without_any(lines, re, k) {
        lemma_last_around(lines, re, row, row + 1, j);
        lemma_range(lines, j, pattern::matches_in(re, lines[j]).last(), c);
    }
}

/// Without a pattern no search goes anywhere.
pub proof fn law_no_pattern_no_search(b: RopeBuffer, wrap: bool, forward: bool, skip: bool)
    ensures
        search::search_target(b, None, wrap, forward, skip) is None,
{
}

} // verus!
