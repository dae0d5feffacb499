//! Search state: the pattern that `n` and `N` repeat and that is highlighted.
use std::ops::Range;

use hjkl_buffer::Buffer as RopeBuffer;
use vstd::prelude::*;

use crate::buffer;
use crate::buffer_impl;
use crate::motions;
use crate::pattern;
use crate::rope;
use crate::surface::{Cursor, Query, TextStore};
use crate::text;
use crate::types::Pos;

verus! {

/// The active pattern.
pub struct SearchState {
    /// The compiled pattern, where there is one.
    pub pattern: Option<regex::Regex>,
    /// Whether a search goes on at the other end of the text.
    pub wrap_around: bool,
}

impl SearchState {
    /// No pattern; searches wrap around.
    pub fn new() -> (s: SearchState)
        ensures
            s.pattern is None,
            s.wrap_around,
    {
        SearchState { pattern: None, wrap_around: true }
    }

    /// Sets or clears the pattern.
    pub fn set_pattern(&mut self, pattern: Option<regex::Regex>)
        ensures
            *final(self) == (SearchState { pattern, ..*old(self) }),
    {
        self.pattern = pattern;
    }
}

/// The matches of a pattern on a row of the buffer, as byte ranges.
pub fn row_matches(b: &RopeBuffer, re: &regex::Regex, row: usize) -> (v: Vec<(usize, usize)>)
    ensures
        v@ == pattern::matches_in(*re, buffer_impl::row_text(rope::buffer_lines(*b), row as int)),
{
    pattern::all_matches(re, buffer_impl::rope_row(b, row))
}

// ── Going to a match ────────────────────────────────────────────────

/// Where a search forward starts: at the cursor, or one column behind it.
pub open spec fn start_ahead(at: Pos, skip_current: bool) -> Pos {
    if skip_current && at.col < u32::MAX {
        Pos { line: at.line, col: (at.col + 1) as u32 }
    } else {
        at
    }
}

/// Behind everything on the last row of a text of `rows` rows.
pub open spec fn end_of_rows(rows: int) -> Pos {
    Pos { line: (if rows > 0 { rows - 1 } else { 0 }) as u32, col: u32::MAX }
}

/// Where a search backward starts: at the cursor, or one column before it, on
/// the row above where there is none, and on the last row of a text of `rows`
/// rows where there is no row above.
pub open spec fn start_back(at: Pos, rows: int, skip_current: bool) -> Pos {
    if !skip_current {
        at
    } else if at.col > 0 {
        Pos { line: at.line, col: (at.col - 1) as u32 }
    } else if at.line > 0 {
        Pos { line: (at.line - 1) as u32, col: u32::MAX }
    } else {
        end_of_rows(rows)
    }
}

/// Whether a search from `at` may go to a match that starts at `to`. The match
/// at `at` itself can be left out, and so can those around the end of the text.
pub open spec fn may_go(at: Pos, to: Pos, forward: bool, wrap: bool, skip_current: bool) -> bool {
    &&& skip_current ==> to != at
    &&& wrap || if forward {
        !to.precedes(at)
    } else {
        !at.precedes(to)
    }
}

/// The match that a search for a pattern comes to from a place. Where there is
/// none from there on and `wrap` lets the search go on at the other end of the
/// text, it starts over there, so that it takes in the whole row of the place.
pub open spec fn found_from<B: TextStore>(
    b: B,
    re: regex::Regex,
    wrap: bool,
    forward: bool,
    skip_current: bool,
) -> Option<Range<Pos>> {
    let rows = b.rows().len() as int;
    let first = if forward {
        b.next_match(start_ahead(b.at(), skip_current), re)
    } else {
        b.prev_match(start_back(b.at(), rows, skip_current), re)
    };
    if first is Some || !wrap {
        first
    } else if forward {
        b.next_match(Pos { line: 0, col: 0 }, re)
    } else {
        b.prev_match(end_of_rows(rows), re)
    }
}

/// Where a search for a pattern leads from the cursor of a store; `wrap` says
/// whether it goes on at the other end of the text.
pub open spec fn search_target<B: TextStore>(
    b: B,
    pattern: Option<regex::Regex>,
    wrap: bool,
    forward: bool,
    skip_current: bool,
) -> Option<Pos> {
    match pattern {
        None => None,
        Some(re) => match found_from(b, re, wrap, forward, skip_current) {
            Some(m) => if may_go(b.at(), m.start, forward, wrap, skip_current) {
                Some(m.start)
            } else {
                None
            },
            None => None,
        },
    }
}

fn comes_before(a: Pos, b: Pos) -> (r: bool)
    ensures
        r == a.precedes(b),
{
    a.line < b.line || (a.line == b.line && a.col < b.col)
}

/// Where a search for a pattern leads from the cursor of a store.
pub fn find_match<B: TextStore>(
    buf: &B,
    pattern: &Option<regex::Regex>,
    wrap: bool,
    forward: bool,
    skip_current: bool,
) -> (r: Option<Pos>)
    ensures
        r == search_target(*buf, *pattern, wrap, forward, skip_current),
{
    let re = match pattern {
        Some(re) => re,
        None => {
            return None;
        },
    };
    let at = buf.cursor();
    let rows: u32 = buf.line_count();
    let end = Pos { line: if rows > 0 { rows - 1 } else { 0 }, col: u32::MAX };
    let first = if forward {
        let from = if skip_current && at.col < u32::MAX {
            Pos { line: at.line, col: at.col + 1 }
        } else {
            at
        };
        buf.find_next(from, re)
    } else {
        let from = if !skip_current {
            at
        } else if at.col > 0 {
            Pos { line: at.line, col: at.col - 1 }
        } else if at.line > 0 {
            Pos { line: at.line - 1, col: u32::MAX }
        } else {
            end
        };
        buf.find_prev(from, re)
    };
    let found = if first.is_some() || !wrap {
        first
    } else if forward {
        buf.find_next(Pos { line: 0, col: 0 }, re)
    } else {
        buf.find_prev(end, re)
    };
    let to = match found {
        Some(m) => m.start,
        None => {
            return None;
        },
    };
    let around = if forward {
        comes_before(to, at)
    } else {
        comes_before(at, to)
    };
    if (skip_current && to == at) || (around && !wrap) {
        None
    } else {
        Some(to)
    }
}

/// Sends the cursor to the next match of the pattern, and says whether there
/// was one.
pub fn search_forward<B: TextStore>(buf: &mut B, s: &SearchState, skip_current: bool) -> (moved:
    bool)
    ensures
        match search_target(*old(buf), s.pattern, s.wrap_around, true, skip_current) {
            Some(p) => {
                &&& moved
                &&& final(buf).at() == old(buf).placed(p)
                &&& motions::same_store(*old(buf), *final(buf))
            },
            None => !moved && *final(buf) == *old(buf),
        },
{
    match find_match(buf, &s.pattern, s.wrap_around, true, skip_current) {
        Some(p) => {
            buf.set_cursor(p);
            true
        },
        None => false,
    }
}

/// Sends the cursor to the match of the pattern before it, and says whether
/// there was one.
pub fn search_backward<B: TextStore>(buf: &mut B, s: &SearchState, skip_current: bool) -> (moved:
    bool)
    ensures
        match search_target(*old(buf), s.pattern, s.wrap_around, false, skip_current) {
            Some(p) => {
                &&& moved
                &&& final(buf).at() == old(buf).placed(p)
                &&& motions::same_store(*old(buf), *final(buf))
            },
            None => !moved && *final(buf) == *old(buf),
        },
{
    match find_match(buf, &s.pattern, s.wrap_around, false, skip_current) {
        Some(p) => {
            buf.set_cursor(p);
            true
        },
        None => false,
    }
}

/// A search that does not wrap around and leaves out the match at the cursor
/// leads on: forward to a match behind the cursor, backward to one before it.
pub proof fn law_search_leads_on<B: TextStore>(
    b: B,
    pattern: Option<regex::Regex>,
    forward: bool,
)
    ensures
        match search_target(b, pattern, false, forward, true) {
            Some(p) => if forward {
                b.at().precedes(p)
            } else {
                p.precedes(b.at())
            },
            None => true,
        },
{
}

/// Where no row from `row` on has a match, none was found there.
proof fn lemma_no_match_from(
    lines: Seq<Seq<char>>,
    re: regex::Regex,
    row: int,
    left: nat,
    i: int,
)
    requires
        0 <= row,
        row + left <= lines.len(),
        row <= i < row + left,
        buffer_impl::first_match_from(lines, re, row, left) is None,
    ensures
        pattern::match_from(re, lines[i], 0) is None,
    decreases left,
{
    if row < i {
        lemma_no_match_from(lines, re, row + 1, (left - 1) as nat, i);
    }
}

/// Where no row before `row` has a match, none was found there.
proof fn lemma_no_match_before(
    lines: Seq<Seq<char>>,
    re: regex::Regex,
    row: int,
    offset: int,
    i: int,
)
    requires
        row == lines.len() - 1,
        0 < offset,
        0 <= i <= row - offset,
        buffer_impl::last_match_before(lines, re, row, offset) is None,
    ensures
        pattern::matches_in(re, lines[i]).len() == 0,
    decreases lines.len() - offset,
{
    if i < row - offset {
        lemma_no_match_before(lines, re, row, offset + 1, i);
    }
}

/// A search of the buffer that wraps around and does not leave out the match at
/// the cursor finds a match wherever the text has one, in whatever row that is,
/// as far as rows and columns count in 32 bits.
pub proof fn law_wrapping_search_finds(b: RopeBuffer, re: regex::Regex, row: int)
    requires
        0 <= row < rope::buffer_lines(b).len() <= u32::MAX,
        buffer::bytes_above(rope::buffer_lines(b), rope::buffer_lines(b).len() as int)
            <= usize::MAX,
        forall|i: int|
            0 <= i < rope::buffer_lines(b).len() ==> {
                let line = #[trigger] rope::buffer_lines(b)[i];
                line.len() <= u32::MAX && pattern::in_order(
                    pattern::matches_in(re, line),
                    text::byte_len(line) as int,
                )
            },
    ensures
        pattern::match_from(re, rope::buffer_lines(b)[row], 0) is Some ==> search_target(
            b,
            Some(re),
            true,
            true,
            false,
        ) is Some,
        pattern::matches_in(re, rope::buffer_lines(b)[row]).len() > 0 ==> search_target(
            b,
            Some(re),
            true,
            false,
            false,
        ) is Some,
{
    let lines = rope::buffer_lines(b);
    let n = lines.len() as int;
    let last = lines[n - 1];
    assert(lines[0].take(0) =~= Seq::<char>::empty());
    if found_from(b, re, true, true, false) is None {
        if row > 0 {
            assert(1int % n == 1) by (nonlinear_arith)
                requires
                    n > 1,
            ;
            lemma_no_match_from(lines, re, 1, (n - 1) as nat, row);
        }
    }
    assert(b.rows() =~= lines);
    let ms = pattern::matches_in(re, last);
    assert(last.take(last.len() as int) =~= last);
    buffer::lemma_bytes_above_grows(lines, n - 1, n);
    if ms.len() > 0 {
        let p = |m: (usize, usize)| m.0 > buffer_impl::byte_at_col(last, u32::MAX as int);
        assert(!p(ms[0]));
        buffer::lemma_first_where_range(ms, p);
    }
    if found_from(b, re, true, false, false) is None && row < n - 1 {
        lemma_no_match_before(lines, re, n - 1, 1, row);
    }
}

} // verus!
