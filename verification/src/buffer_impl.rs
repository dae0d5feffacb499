//! The trait surface of `hjkl_buffer::Buffer`.
use std::borrow::Cow;
use std::ops::Range;

use hjkl_buffer::Buffer as RopeBuffer;
use vstd::prelude::*;

use crate::buffer;
use crate::buffer::Position;
use crate::rope;

use crate::pattern;
use crate::surface::{BufferEdit, Cursor, Query, Search, TextStore};
use crate::text;
use crate::types::Pos;

verus! {

/// The rows of `lines` as far as a 32-bit row count reaches.
pub open spec fn shown_rows(lines: Seq<Seq<char>>) -> Seq<Seq<char>> {
    lines.take((lines.len() as u32) as int)
}

/// A place as a 32-bit position.
pub open spec fn as_pos(at: (int, int)) -> Pos {
    Pos { line: at.0 as u32, col: at.1 as u32 }
}

/// A position as a place.
pub open spec fn as_place(p: Pos) -> (int, int) {
    (p.line as int, p.col as int)
}

/// The text of a range. A range that ends past the last row ends on one more,
/// empty row; one that starts there, or that ends before it starts, is empty.
pub open spec fn range_text(lines: Seq<Seq<char>>, start: (int, int), end: (int, int)) -> Seq<
    char,
> {
    if buffer::at_or_before(end, start) || start.0 >= lines.len() {
        Seq::<char>::empty()
    } else if end.0 < lines.len() {
        buffer::text_between(lines, start, end)
    } else {
        buffer::text_between(
            lines.push(Seq::<char>::empty()),
            start,
            (lines.len() as int, 0int),
        )
    }
}

/// The byte offset of a place: the lines above it, then its line up to it.
pub open spec fn place_offset(lines: Seq<Seq<char>>, at: (int, int)) -> nat {
    buffer::bytes_above(lines, text::min(at.0, lines.len() as int)) + if at.0 < lines.len() {
        text::byte_len(lines[at.0].take(text::min(at.1, lines[at.0].len() as int)))
    } else {
        0
    }
}

/// The place of the byte `rest` bytes after the start of row `row`; past the
/// end of the text it is the end of the last line.
pub open spec fn offset_place(lines: Seq<Seq<char>>, row: int, rest: int) -> (int, int)
    decreases lines.len() - row,
{
    if row >= lines.len() {
        (lines.len() - 1, lines.last().len() as int)
    } else if rest <= text::byte_len(lines[row]) {
        (row, text::col_at_byte(lines[row], rest))
    } else {
        offset_place(lines, row + 1, rest - text::byte_len(lines[row]) - 1)
    }
}

/// A buffer position as a 32-bit position.
pub fn position_to_pos(p: Position) -> (q: Pos)
    ensures
        q == as_pos(p.spot()),
{
    Pos { line: p.row as u32, col: p.col as u32 }
}

/// A 32-bit position as a buffer position.
pub fn pos_to_position(p: Pos) -> (q: Position)
    ensures
        q.spot() == as_place(p),
{
    Position { row: p.line as usize, col: p.col as usize }
}

/// A row count cut down to 32 bits is no larger than it was.
proof fn lemma_count_fits(n: usize)
    ensures
        (n as u32) as usize <= n,
{
    assert((n as u32) as usize <= n) by (bit_vector);
}

impl Query for RopeBuffer {
    open spec fn rows(&self) -> Seq<Seq<char>> {
        shown_rows(rope::buffer_lines(*self))
    }

    open spec fn size(&self) -> nat {
        (buffer::bytes_above(rope::buffer_lines(*self), rope::buffer_lines(*self).len() as int) - 1) as nat
    }

    open spec fn text_in(&self, range: Range<Pos>) -> Seq<char> {
        range_text(rope::buffer_lines(*self), as_place(range.start), as_place(range.end))
    }

    fn line_count(&self) -> u32 {
        let n: usize = rope::rope_row_count(self);
        proof {
            lemma_count_fits(n);
        }
        n as u32
    }

    fn line(&self, idx: u32) -> &str {
        let n: usize = rope::rope_row_count(self);
        proof {
            lemma_count_fits(n);
        }
        match rope::rope_line(self, idx as usize) {
            Some(s) => s,
            None => "",
        }
    }

    fn len_bytes(&self) -> (n: usize)
        ensures
            n == self.size(),
    {
        let n: usize = rope::rope_row_count(self);
        let mut total: usize = 0;
        let mut r: usize = 0;
        let ghost lines = rope::buffer_lines(*self);
        while r < n
            invariant
                n == lines.len(),
                lines == rope::buffer_lines(*self),
                n >= 1,
                r <= n,
                buffer::bytes_above(lines, n as int) - 1 <= usize::MAX,
                total + r == buffer::bytes_above(lines, r as int),
            decreases n - r,
        {
            proof {
                buffer::lemma_bytes_above_grows(lines, r + 1, n as int);
            }
            let len: usize = match rope::rope_line(self, r) {
                Some(s) => text::byte_length(s),
                None => 0,
            };
            total = total + len;
            r = r + 1;
        }
        total + (n - 1)
    }

    fn dirty_gen(&self) -> (g: u64)
        ensures
            g == rope::buffer_gen(*self),
    {
        rope::rope_gen(self)
    }

    fn slice(&self, range: Range<Pos>) -> Cow<'_, str> {
        let start = pos_to_position(range.start);
        let end = pos_to_position(range.end);
        let n: usize = rope::rope_row_count(self);
        proof {
            reveal_strlit("");
        }
        if end.row < start.row || (end.row == start.row && end.col <= start.col) || start.row
            >= n {
            assert(""@ =~= Seq::<char>::empty());
            return Cow::Borrowed("");
        }
        let ghost lines = rope::buffer_lines(*self);
        let first: &str = match rope::rope_line(self, start.row) {
            Some(s) => s,
            None => "",
        };
        let len: usize = text::char_count(first);
        let lo: usize = if start.col < len {
            start.col
        } else {
            len
        };
        if start.row == end.row {
            let hi: usize = if end.col < len {
                end.col
            } else {
                len
            };
            return Cow::Borrowed(first.substring_char(lo, hi));
        }
        let mut out = String::new();
        out.push_str(first.substring_char(lo, len));
        out.push('\n');
        let ghost head = seq![first@.skip(lo as int)];
        let mut r: usize = start.row + 1;
        let stop: usize = if end.row < n {
            end.row
        } else {
            n
        };
        proof {
            assert(head + lines.subrange(start.row + 1, start.row + 1) =~= head);
            assert(head.drop_last() =~= Seq::<Seq<char>>::empty());
            assert(first@.skip(lo as int) =~= first@.subrange(lo as int, len as int));
            assert(out@ =~= buffer::terminated(head)) by {
                assert(buffer::terminated(head.drop_last()) =~= Seq::<char>::empty());
            }
        }
        while r < stop
            invariant
                lines == rope::buffer_lines(*self),
                n == lines.len(),
                start.row < r <= stop <= n,
                out@ == buffer::terminated(head + lines.subrange(start.row + 1, r as int)),
            decreases stop - r,
        {
            let line: &str = match rope::rope_line(self, r) {
                Some(s) => s,
                None => "",
            };
            out.push_str(line);
            out.push('\n');
            proof {
                let done = head + lines.subrange(start.row + 1, r as int);
                let more = head + lines.subrange(start.row + 1, r + 1);
                assert(more.drop_last() =~= done);
                assert(out@ =~= buffer::terminated(more));
            }
            r = r + 1;
        }
        let ghost done = head + lines.subrange(start.row + 1, stop as int);
        if end.row < n {
            let last: &str = match rope::rope_line(self, end.row) {
                Some(s) => s,
                None => "",
            };
            let last_len: usize = text::char_count(last);
            let hi: usize = if end.col < last_len {
                end.col
            } else {
                last_len
            };
            out.push_str(last.substring_char(0, hi));
            proof {
                assert(last@.take(hi as int) =~= last@.subrange(0, hi as int));
                buffer::lemma_join_terminated(done, last@.take(hi as int));
                assert(done.push(last@.take(hi as int)) =~= done + seq![last@.take(hi as int)]);
            }
        } else {
            proof {
                let more = lines.push(Seq::<char>::empty());
                assert(more.subrange(start.row + 1, n as int) =~= lines.subrange(
                    start.row + 1,
                    n as int,
                ));
                let none = Seq::<char>::empty();
                assert(none.take(0) =~= none);
                buffer::lemma_join_terminated(done, none);
                assert(done.push(none) =~= done + seq![none]);
                assert(out@ + none =~= out@);
            }
        }
        Cow::Owned(out)
    }
}

impl Cursor for RopeBuffer {
    open spec fn at(&self) -> Pos {
        as_pos(rope::buffer_cursor(*self))
    }

    open spec fn placed(&self, pos: Pos) -> Pos {
        as_pos(buffer::clamp(rope::buffer_lines(*self), as_place(pos)))
    }

    open spec fn offset_of(&self, pos: Pos) -> nat {
        place_offset(rope::buffer_lines(*self), as_place(pos))
    }

    open spec fn pos_of(&self, byte: usize) -> Pos {
        as_pos(offset_place(rope::buffer_lines(*self), 0, byte as int))
    }

    fn cursor(&self) -> Pos {
        position_to_pos(rope::rope_cursor(self))
    }

    fn set_cursor(&mut self, pos: Pos)
        ensures
            rope::only_cursor_moved(*old(self), *final(self)),
            rope::buffer_cursor(*final(self)) == buffer::clamp(
                rope::buffer_lines(*old(self)),
                as_place(pos),
            ),
    {
        rope::rope_set_cursor(self, pos_to_position(pos));
    }

    fn byte_offset(&self, pos: Pos) -> (n: usize)
        ensures
            n == self.offset_of(pos),
    {
        let p = pos_to_position(pos);
        let n: usize = rope::rope_row_count(self);
        let ghost lines = rope::buffer_lines(*self);
        let stop: usize = if p.row < n {
            p.row
        } else {
            n
        };
        let mut byte: usize = 0;
        let mut r: usize = 0;
        proof {
            buffer::lemma_bytes_above_grows(lines, stop as int, n as int);
        }
        while r < stop
            invariant
                lines == rope::buffer_lines(*self),
                n == lines.len(),
                r <= stop <= n,
                buffer::bytes_above(lines, stop as int) <= usize::MAX,
                byte == buffer::bytes_above(lines, r as int),
            decreases stop - r,
        {
            proof {
                buffer::lemma_bytes_above_grows(lines, r + 1, stop as int);
            }
            let len: usize = match rope::rope_line(self, r) {
                Some(s) => text::byte_length(s),
                None => 0,
            };
            byte = byte + len + 1;
            r = r + 1;
        }
        match rope::rope_line(self, p.row) {
            Some(line) => {
                proof {
                    let c = text::min(p.col as int, line@.len() as int);
                    text::lemma_byte_len_prefix(line@, c, line@.len() as int);
                    assert(line@.take(line@.len() as int) =~= line@);
                    buffer::lemma_bytes_above_grows(lines, p.row + 1, n as int);
                }
                byte + rope::byte_offset(line, p.col)
            },
            None => byte,
        }
    }

    fn pos_at_byte(&self, byte: usize) -> Pos {
        let n: usize = rope::rope_row_count(self);
        let ghost lines = rope::buffer_lines(*self);
        let mut rest: usize = byte;
        let mut r: usize = 0;
        while r < n
            invariant
                lines == rope::buffer_lines(*self),
                n == lines.len(),
                r <= n,
                offset_place(lines, 0, byte as int) == offset_place(lines, r as int, rest as int),
            decreases n - r,
        {
            let line: &str = match rope::rope_line(self, r) {
                Some(s) => s,
                None => "",
            };
            let len: usize = text::byte_length(line);
            if rest <= len {
                let col: usize = text::byte_to_col(line, rest);
                return position_to_pos(Position { row: r, col });
            }
            rest = rest - len - 1;
            r = r + 1;
        }
        let last: usize = n - 1;
        let col: usize = match rope::rope_line(self, last) {
            Some(s) => text::char_count(s),
            None => 0,
        };
        position_to_pos(Position { row: last, col })
    }
}

/// The place of the byte offset of a place in the buffer is that place.
pub proof fn law_offset_place_inverse(lines: Seq<Seq<char>>, at: (int, int))
    requires
        0 <= at.0 < lines.len(),
        0 <= at.1 <= lines[at.0].len(),
    ensures
        offset_place(lines, 0, place_offset(lines, at) as int) == at,
{
    lemma_offset_place_from(lines, 0, at);
}

proof fn lemma_offset_place_from(lines: Seq<Seq<char>>, row: int, at: (int, int))
    requires
        0 <= row <= at.0 < lines.len(),
        0 <= at.1 <= lines[at.0].len(),
    ensures
        offset_place(lines, row, place_offset(lines, at) - buffer::bytes_above(lines, row)) == at,
    decreases at.0 - row,
{
    let line = lines[at.0];
    text::lemma_byte_len_prefix(line, at.1, line.len() as int);
    assert(line.take(line.len() as int) =~= line);
    if row == at.0 {
        text::lemma_col_at_byte_inverse(line, at.1);
    } else {
        buffer::lemma_bytes_above_grows(lines, row + 1, at.0);
        lemma_offset_place_from(lines, row + 1, at);
    }
}

// ── Edits ───────────────────────────────────────────────────────────

/// What deleting a range leaves: both ends are moved into the text first, and
/// a range that is empty then changes nothing.
pub open spec fn range_deleted(lines: Seq<Seq<char>>, start: (int, int), end: (int, int)) -> Seq<
    Seq<char>,
> {
    let from = buffer::clamp(lines, start);
    let to = buffer::clamp(lines, end);
    if buffer::at_or_before(to, from) {
        lines
    } else {
        buffer::cut(lines, from, to)
    }
}

/// What putting `t` in place of a range gives, and where the new text ends: a
/// range that is empty once both ends are moved into the text is a mere place
/// to insert at.
pub open spec fn range_replaced(
    lines: Seq<Seq<char>>,
    start: (int, int),
    end: (int, int),
    t: Seq<char>,
) -> (Seq<Seq<char>>, (int, int), (int, int)) {
    let from = buffer::clamp(lines, start);
    let to = buffer::clamp(lines, end);
    if buffer::at_or_before(to, from) {
        buffer::insertion(lines, from, t)
    } else {
        buffer::replacement(lines, from, to, t)
    }
}

impl BufferEdit for RopeBuffer {
    open spec fn rows_inserted(&self, pos: Pos, t: Seq<char>) -> Seq<Seq<char>> {
        shown_rows(buffer::insertion(rope::buffer_lines(*self), as_place(pos), t).0)
    }

    open spec fn rows_deleted(&self, range: Range<Pos>) -> Seq<Seq<char>> {
        shown_rows(
            range_deleted(
                rope::buffer_lines(*self),
                as_place(range.start),
                as_place(range.end),
            ),
        )
    }

    open spec fn rows_replaced(&self, range: Range<Pos>, t: Seq<char>) -> Seq<Seq<char>> {
        shown_rows(
            range_replaced(
                rope::buffer_lines(*self),
                as_place(range.start),
                as_place(range.end),
                t,
            ).0,
        )
    }

    fn insert_at(&mut self, pos: Pos, t: &str)
        ensures
            rope::edited(
                *old(self),
                *final(self),
                buffer::insertion(rope::buffer_lines(*old(self)), as_place(pos), t@).0,
                buffer::insertion(rope::buffer_lines(*old(self)), as_place(pos), t@).2,
            ),
    {
        rope::rope_insert(self, pos_to_position(pos), t.to_string());
    }

    fn delete_range(&mut self, range: Range<Pos>)
        ensures
            ({
                let lines = rope::buffer_lines(*old(self));
                let from = buffer::clamp(lines, as_place(range.start));
                let to = buffer::clamp(lines, as_place(range.end));
                if buffer::at_or_before(to, from) {
                    *final(self) == *old(self)
                } else {
                    rope::edited(*old(self), *final(self), buffer::cut(lines, from, to), from)
                }
            }),
    {
        let start = rope::rope_clamp(self, pos_to_position(range.start));
        let end = rope::rope_clamp(self, pos_to_position(range.end));
        if end.row < start.row || (end.row == start.row && end.col <= start.col) {
            return;
        }
        rope::rope_delete_chars(self, start, end);
    }

    fn replace_range(&mut self, range: Range<Pos>, t: &str)
        ensures
            rope::edited(
                *old(self),
                *final(self),
                range_replaced(
                    rope::buffer_lines(*old(self)),
                    as_place(range.start),
                    as_place(range.end),
                    t@,
                ).0,
                range_replaced(
                    rope::buffer_lines(*old(self)),
                    as_place(range.start),
                    as_place(range.end),
                    t@,
                ).2,
            ),
    {
        let start = rope::rope_clamp(self, pos_to_position(range.start));
        let end = rope::rope_clamp(self, pos_to_position(range.end));
        if end.row < start.row || (end.row == start.row && end.col <= start.col) {
            rope::rope_insert(self, start, t.to_string());
            return;
        }
        rope::rope_replace(self, start, end, t.to_string());
    }

    fn replace_all(&mut self, t: &str)
        ensures
            rope::edited(
                *old(self),
                *final(self),
                buffer::split_text(t@),
                rope::buffer_cursor(*old(self)),
            ),
    {
        rope::rope_replace_all(self, t);
    }
}

// ── Search ──────────────────────────────────────────────────────────

/// Row `row`, or an empty line where there is no such row.
pub open spec fn row_text(lines: Seq<Seq<char>>, row: int) -> Seq<char> {
    if 0 <= row < lines.len() {
        lines[row]
    } else {
        Seq::<char>::empty()
    }
}

/// A byte range of a row as a range of positions.
pub open spec fn match_range(line: Seq<char>, row: int, m: (usize, usize)) -> Range<Pos> {
    Range {
        start: as_pos((row, text::col_at_byte(line, m.0 as int))),
        end: as_pos((row, text::col_at_byte(line, m.1 as int))),
    }
}

/// The byte at which a column of a line starts, no further than its end.
pub open spec fn byte_at_col(line: Seq<char>, col: int) -> usize {
    text::byte_len(line.take(text::min(col, line.len() as int))) as usize
}

/// The row after `row`, the first one after the last.
pub open spec fn row_after(row: int, total: int) -> int {
    if row + 1 >= total {
        0
    } else {
        row + 1
    }
}

/// The first match on `row` or on one of the `left` rows after it, around the
/// end of the text.
pub open spec fn first_match_from(
    lines: Seq<Seq<char>>,
    re: regex::Regex,
    row: int,
    left: nat,
) -> Option<Range<Pos>>
    decreases left,
{
    if left == 0 {
        None
    } else {
        match pattern::match_from(re, row_text(lines, row), 0) {
            Some(m) => Some(match_range(row_text(lines, row), row, m)),
            None => first_match_from(
                lines,
                re,
                row_after(row, lines.len() as int),
                (left - 1) as nat,
            ),
        }
    }
}

/// The first match at or after a place: on its row, then on the rows after it,
/// around the end of the text.
pub open spec fn match_after(lines: Seq<Seq<char>>, re: regex::Regex, at: (int, int)) -> Option<
    Range<Pos>,
> {
    let line = row_text(lines, at.0);
    match pattern::match_from(re, line, byte_at_col(line, at.1)) {
        Some(m) => Some(match_range(line, at.0, m)),
        None => first_match_from(
            lines,
            re,
            (at.0 + 1) % (lines.len() as int),
            (lines.len() - 1) as nat,
        ),
    }
}

/// The last of a row's matches that starts at or before a byte.
pub open spec fn last_up_to(ms: Seq<(usize, usize)>, byte: usize) -> Option<(usize, usize)> {
    let i = buffer::first_where(ms, |m: (usize, usize)| m.0 > byte);
    if i == 0 {
        None
    } else {
        Some(ms[i - 1])
    }
}

/// The row `offset` rows before `row`, around the start of the text.
pub open spec fn row_before(row: int, offset: int, total: int) -> int {
    if offset > row {
        total - (offset - row)
    } else {
        row - offset
    }
}

/// The last match on the nearest row before `row` that has one, from `offset`
/// rows before it on.
pub open spec fn last_match_before(
    lines: Seq<Seq<char>>,
    re: regex::Regex,
    row: int,
    offset: int,
) -> Option<Range<Pos>>
    decreases lines.len() - offset,
{
    if offset >= lines.len() {
        None
    } else {
        let r = row_before(row, offset, lines.len() as int);
        let ms = pattern::matches_in(re, row_text(lines, r));
        if ms.len() > 0 {
            Some(match_range(row_text(lines, r), r, ms.last()))
        } else {
            last_match_before(lines, re, row, offset + 1)
        }
    }
}

/// The last match at or before a place: on its row, then on the rows before
/// it, around the start of the text.
pub open spec fn match_before(lines: Seq<Seq<char>>, re: regex::Regex, at: (int, int)) -> Option<
    Range<Pos>,
> {
    let line = row_text(lines, at.0);
    match last_up_to(pattern::matches_in(re, line), byte_at_col(line, at.1)) {
        Some(m) => Some(match_range(line, at.0, m)),
        None => last_match_before(lines, re, at.0, 1),
    }
}

/// A byte range of a row as a range of positions. A byte inside a character
/// belongs to that character, and one past the end of the line to its end.
pub fn byte_range_to_pos_range(row: usize, start: usize, end: usize, line: &str) -> (r: Range<Pos>)
    ensures
        r == match_range(line@, row as int, (start, end)),
{
    let from = Pos { line: row as u32, col: text::byte_to_col(line, start) as u32 };
    let to = Pos { line: row as u32, col: text::byte_to_col(line, end) as u32 };
    from..to
}

/// The last of the matches that starts at or before `byte`; the matches are in
/// order.
pub fn last_match_up_to(ms: &Vec<(usize, usize)>, byte: usize) -> (r: Option<(usize, usize)>)
    ensures
        r == last_up_to(ms@, byte),
{
    let ghost p = |m: (usize, usize)| m.0 > byte;
    let mut i: usize = 0;
    while i < ms.len() && ms[i].0 <= byte
        invariant
            i <= ms@.len(),
            p == (|m: (usize, usize)| m.0 > byte),
            forall|k: int| 0 <= k < i ==> !p(#[trigger] ms@[k]),
        decreases ms.len() - i,
    {
        i = i + 1;
    }
    proof {
        buffer::lemma_first_where(ms@, p, i as int);
    }
    if i == 0 {
        None
    } else {
        Some(ms[i - 1])
    }
}

/// Row `row` of the buffer, or an empty line where there is no such row.
pub(crate) fn rope_row(b: &RopeBuffer, row: usize) -> (s: &str)
    ensures
        s@ == row_text(rope::buffer_lines(*b), row as int),
{
    match rope::rope_line(b, row) {
        Some(s) => s,
        None => {
            proof {
                reveal_strlit("");
                assert(""@ =~= Seq::<char>::empty());
            }
            ""
        },
    }
}

impl Search for RopeBuffer {
    open spec fn next_match(&self, from: Pos, pat: regex::Regex) -> Option<Range<Pos>> {
        match_after(rope::buffer_lines(*self), pat, as_place(from))
    }

    open spec fn prev_match(&self, from: Pos, pat: regex::Regex) -> Option<Range<Pos>> {
        match_before(rope::buffer_lines(*self), pat, as_place(from))
    }

    fn find_next(&self, from: Pos, pat: &regex::Regex) -> Option<Range<Pos>> {
        let start = pos_to_position(from);
        let total: usize = rope::rope_row_count(self);
        let ghost lines = rope::buffer_lines(*self);
        let line = rope_row(self, start.row);
        let byte: usize = rope::byte_offset(line, start.col);
        proof {
            let c = text::min(start.col as int, line@.len() as int);
            text::lemma_byte_len_prefix(line@, c, line@.len() as int);
            assert(line@.take(line@.len() as int) =~= line@);
        }
        if let Some(m) = pattern::find_from(pat, line, byte) {
            return Some(byte_range_to_pos_range(start.row, m.0, m.1, line));
        }
        let mut row: usize = ((start.row as u128 + 1) % (total as u128)) as usize;
        let mut left: usize = total - 1;
        let ghost first = row as int;
        while left > 0
            invariant
                lines == rope::buffer_lines(*self),
                total == lines.len(),
                row < total,
                first_match_from(lines, *pat, first, (total - 1) as nat) == first_match_from(
                    lines,
                    *pat,
                    row as int,
                    left as nat,
                ),
                match_after(lines, *pat, start.spot()) == first_match_from(
                    lines,
                    *pat,
                    first,
                    (total - 1) as nat,
                ),
                start.spot() == as_place(from),
            decreases left,
        {
            let line = rope_row(self, row);
            if let Some(m) = pattern::find_from(pat, line, 0) {
                return Some(byte_range_to_pos_range(row, m.0, m.1, line));
            }
            row = if row == total - 1 {
                0
            } else {
                row + 1
            };
            left = left - 1;
        }
        None
    }

    fn find_prev(&self, from: Pos, pat: &regex::Regex) -> Option<Range<Pos>> {
        let start = pos_to_position(from);
        let total: usize = rope::rope_row_count(self);
        let ghost lines = rope::buffer_lines(*self);
        let line = rope_row(self, start.row);
        let byte: usize = rope::byte_offset(line, start.col);
        let ms = pattern::all_matches(pat, line);
        if let Some(m) = last_match_up_to(&ms, byte) {
            return Some(byte_range_to_pos_range(start.row, m.0, m.1, line));
        }
        let mut offset: usize = 1;
        while offset < total
            invariant
                lines == rope::buffer_lines(*self),
                total == lines.len(),
                1 <= offset,
                last_match_before(lines, *pat, start.row as int, 1) == last_match_before(
                    lines,
                    *pat,
                    start.row as int,
                    offset as int,
                ),
                match_before(lines, *pat, start.spot()) == last_match_before(
                    lines,
                    *pat,
                    start.row as int,
                    1,
                ),
                start.spot() == as_place(from),
            decreases total - offset,
        {
            let row: usize = if offset > start.row {
                total - (offset - start.row)
            } else {
                start.row - offset
            };
            let line = rope_row(self, row);
            let ms = pattern::all_matches(pat, line);
            if ms.len() > 0 {
                let m = ms[ms.len() - 1];
                return Some(byte_range_to_pos_range(row, m.0, m.1, line));
            }
            offset = offset + 1;
        }
        None
    }
}

impl TextStore for RopeBuffer {

}

} // verus!
