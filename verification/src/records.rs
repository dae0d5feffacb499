//! What the records of an edit say of the text before and after it.
use vstd::prelude::*;

use crate::buffer;
use crate::buffer::{Edit, MotionKind, Position};
use crate::buffer_impl;
use crate::content;
use crate::edits;
use crate::inverses;
use crate::text;

verus! {

/// The text up to a place.
pub open spec fn text_before(lines: Seq<Seq<char>>, at: (int, int)) -> Seq<char> {
    buffer::terminated(lines.take(at.0)) + lines[at.0].take(at.1)
}

/// The text from a place on.
pub open spec fn text_behind(lines: Seq<Seq<char>>, at: (int, int)) -> Seq<char> {
    buffer::join_text(seq![lines[at.0].skip(at.1)] + lines.skip(at.0 + 1))
}

/// Joined lines are the first of them with their line breaks and then the
/// others joined.
proof fn lemma_join_rows(a: Seq<Seq<char>>, b: Seq<Seq<char>>)
    requires
        b.len() > 0,
    ensures
        buffer::join_text(a + b) == buffer::terminated(a) + buffer::join_text(b),
    decreases b.len(),
{
    if b.len() == 1 {
        buffer::lemma_join_terminated(a, b[0]);
        assert(a + b =~= a.push(b[0]));
    } else {
        lemma_join_rows(a, b.drop_last());
        assert((a + b).drop_last() =~= a + b.drop_last());
        assert(buffer::join_text(a + b) =~= buffer::terminated(a) + buffer::join_text(b));
    }
}

/// Joined lines grow at the front as the first of them does.
proof fn lemma_join_front(p: Seq<char>, s: Seq<char>, rest: Seq<Seq<char>>)
    ensures
        buffer::join_text(seq![p + s] + rest) == p + buffer::join_text(seq![s] + rest),
    decreases rest.len(),
{
    if rest.len() == 0 {
        assert(seq![p + s] + rest =~= seq![p + s]);
        assert(seq![s] + rest =~= seq![s]);
    } else {
        lemma_join_front(p, s, rest.drop_last());
        assert((seq![p + s] + rest).drop_last() =~= seq![p + s] + rest.drop_last());
        assert((seq![s] + rest).drop_last() =~= seq![s] + rest.drop_last());
        assert(buffer::join_text(seq![p + s] + rest) =~= p + buffer::join_text(seq![s] + rest));
    }
}

/// Lines with their line breaks are the joined lines and one line break more.
proof fn lemma_terminated_join(s: Seq<Seq<char>>)
    requires
        s.len() > 0,
    ensures
        buffer::terminated(s) == buffer::join_text(s).push('\n'),
{
    let head = s.drop_last();
    buffer::lemma_join_terminated(head, s.last());
    assert(head.push(s.last()) =~= s);
    assert(buffer::terminated(s) =~= buffer::join_text(s).push('\n'));
}

/// The lines above a row take as many bytes as counted.
proof fn lemma_terminated_bytes(lines: Seq<Seq<char>>, n: int)
    requires
        0 <= n <= lines.len(),
    ensures
        text::byte_len(buffer::terminated(lines.take(n))) == buffer::bytes_above(lines, n),
    decreases n,
{
    if n > 0 {
        lemma_terminated_bytes(lines, n - 1);
        assert(lines.take(n).drop_last() =~= lines.take(n - 1));
        let head = buffer::terminated(lines.take(n - 1));
        text::lemma_byte_len_concat(head, lines[n - 1]);
        text::lemma_byte_len_concat(head + lines[n - 1], seq!['\n']);
        assert(seq!['\n'].drop_last() =~= Seq::<char>::empty());
        assert(text::byte_len(seq!['\n']) == 1) by {
            assert(text::byte_len(seq!['\n'].drop_last()) == 0);
        }
    } else {
        assert(lines.take(0) =~= Seq::<Seq<char>>::empty());
    }
}

/// A text is what lies before a place and what lies behind it.
pub proof fn lemma_text_at(lines: Seq<Seq<char>>, at: (int, int))
    requires
        buffer::in_text(lines, at),
    ensures
        buffer::join_text(lines) == text_before(lines, at) + text_behind(lines, at),
        text::byte_len(text_before(lines, at)) == buffer::bytes_above(lines, at.0)
            + text::byte_len(lines[at.0].take(at.1)),
{
    let line = lines[at.0];
    let rest = lines.skip(at.0 + 1);
    assert(lines.take(at.0) + (seq![line] + rest) =~= lines);
    lemma_join_rows(lines.take(at.0), seq![line] + rest);
    lemma_join_front(line.take(at.1), line.skip(at.1), rest);
    assert(line.take(at.1) + line.skip(at.1) =~= line);
    assert(buffer::join_text(lines) =~= text_before(lines, at) + text_behind(lines, at));
    lemma_terminated_bytes(lines, at.0);
    text::lemma_byte_len_concat(buffer::terminated(lines.take(at.0)), line.take(at.1));
}

/// What lies behind a place is what lies up to a later place and what lies
/// behind that.
proof fn lemma_text_behind(lines: Seq<Seq<char>>, from: (int, int), to: (int, int))
    requires
        buffer::in_text(lines, from),
        buffer::in_text(lines, to),
        buffer::at_or_before(from, to),
    ensures
        text_behind(lines, from) == buffer::text_between(lines, from, to) + text_behind(lines, to),
{
    let first = lines[from.0];
    let last = lines[to.0];
    let rest = lines.skip(to.0 + 1);
    if from.0 == to.0 {
        let mid = first.subrange(from.1, to.1);
        lemma_join_front(mid, first.skip(to.1), rest);
        assert(mid + first.skip(to.1) =~= first.skip(from.1));
    } else {
        let head = seq![first.skip(from.1)] + lines.subrange(from.0 + 1, to.0);
        assert(seq![first.skip(from.1)] + lines.skip(from.0 + 1) =~= head + (seq![last] + rest));
        lemma_join_rows(head, seq![last] + rest);
        lemma_join_front(last.take(to.1), last.skip(to.1), rest);
        assert(last.take(to.1) + last.skip(to.1) =~= last);
        buffer::lemma_join_terminated(head, last.take(to.1));
        assert(head.push(last.take(to.1)) =~= head + seq![last.take(to.1)]);
        assert(text_behind(lines, from) =~= buffer::text_between(lines, from, to) + text_behind(
            lines,
            to,
        ));
    }
}

/// The text after `t` took the place of what lies between two places.
proof fn lemma_text_replaced(
    lines: Seq<Seq<char>>,
    from: (int, int),
    to: (int, int),
    t: Seq<char>,
)
    requires
        buffer::in_text(lines, from),
        buffer::in_text(lines, to),
        buffer::at_or_before(from, to),
    ensures
        buffer::join_text(buffer::replacement(lines, from, to, t).0) == text_before(lines, from) + t
            + text_behind(lines, to),
{
    let a = lines[from.0].take(from.1);
    let b = lines[to.0].skip(to.1);
    let above = lines.take(from.0);
    let below = lines.skip(to.0 + 1);
    let rest = buffer::cut(lines, from, to);
    assert(rest =~= above + seq![a + b] + below);
    assert(rest[from.0] == a + b);
    assert((a + b).take(from.1) =~= a);
    assert((a + b).skip(from.1) =~= b);
    assert(rest.take(from.0) =~= above);
    assert(rest.skip(from.0 + 1) =~= below);
    let u = a + t + b;
    let s = buffer::split_text(u);
    edits::lemma_split_clean(u);
    edits::lemma_join_split(u);
    let after = buffer::replacement(lines, from, to, t).0;
    assert(after =~= above + (s + below));
    lemma_join_rows(above, s + below);
    if below.len() == 0 {
        assert(s + below =~= s);
        assert(seq![b] + below =~= seq![b]);
        assert(buffer::join_text(after) =~= text_before(lines, from) + t + text_behind(lines, to));
    } else {
        lemma_join_rows(s, below);
        lemma_terminated_join(s);
        lemma_join_rows(seq![b], below);
        lemma_terminated_join(seq![b]);
        assert(buffer::join_text(after) =~= text_before(lines, from) + t + text_behind(lines, to));
    }
}

/// The byte record of putting a text in place of what lies between two places
/// says what changed: the bytes up to its start and those from its old end on
/// are the same before and after, and the text takes the bytes from its start
/// to its new end. (An insertion has no bytes between the places, and a
/// deletion no text.)
pub proof fn law_record_says_what_changed(
    lines: Seq<Seq<char>>,
    from: (int, int),
    to: (int, int),
    t: Seq<char>,
)
    requires
        buffer::in_text(lines, from),
        buffer::in_text(lines, to),
        buffer::at_or_before(from, to),
        buffer::bytes_above(lines, lines.len() as int) <= usize::MAX,
        content::coords(lines, from).byte + text::byte_len(t) <= usize::MAX,
    ensures
        ({
            let r = content::replacing(lines, from, to, t);
            let head = text_before(lines, from);
            let gone = buffer::text_between(lines, from, to);
            let tail = text_behind(lines, to);
            &&& buffer::join_text(lines) == head + gone + tail
            &&& buffer::join_text(buffer::replacement(lines, from, to, t).0) == head + t + tail
            &&& r.start_byte == text::byte_len(head)
            &&& r.old_end_byte == text::byte_len(head + gone)
            &&& r.new_end_byte == text::byte_len(head + t)
        }),
{
    let head = text_before(lines, from);
    let gone = buffer::text_between(lines, from, to);
    let tail = text_behind(lines, to);
    lemma_text_at(lines, from);
    lemma_text_at(lines, to);
    lemma_text_behind(lines, from, to);
    assert(head + (gone + tail) =~= head + gone + tail);
    lemma_text_replaced(lines, from, to, t);
    text::lemma_byte_len_concat(head + gone, tail);
    text::lemma_byte_len_concat(text_before(lines, to), tail);
    text::lemma_byte_len_concat(head, t);
    lemma_row_fits(lines, from);
    lemma_row_fits(lines, to);
}

/// The text that an insertion, a replacement or a charwise deletion puts in, and
/// the places between which it does. Only these edits have both.
pub open spec fn change_of(edit: Edit) -> Option<(Position, Position, Seq<char>)> {
    match edit {
        Edit::InsertChar { at, ch } => Some((at, at, seq![ch])),
        Edit::InsertStr { at, text: t } => Some((at, at, t@)),
        Edit::DeleteRange { start, end, kind } => if kind is Char {
            Some((start, end, Seq::<char>::empty()))
        } else {
            None
        },
        Edit::Replace { start, end, with } => Some((start, end, with@)),
        _ => None,
    }
}

/// An insertion, a replacement or a charwise deletion between two places of the
/// text has one record, and it says what changed: the text after the edit is the
/// text before it up to the record's start, then what the edit puts in, which
/// reaches to the record's new end, and then the text before the edit from the
/// record's old end on.
pub proof fn law_edit_record_says_what_changed(lines: Seq<Seq<char>>, edit: Edit)
    requires
        edits::clean(lines),
        change_of(edit) matches Some((from, to, t)) && {
            &&& buffer::in_text(lines, from.spot())
            &&& buffer::in_text(lines, to.spot())
            &&& buffer::at_or_before(from.spot(), to.spot())
            &&& content::coords(lines, from.spot()).byte + text::byte_len(t) <= usize::MAX
        },
        buffer::bytes_above(lines, lines.len() as int) <= usize::MAX,
    ensures
        content::content_edits(lines, edit).len() == 1,
        change_of(edit) matches Some((from, to, t)) && {
            let r = content::content_edits(lines, edit)[0];
            let head = text_before(lines, from.spot());
            let gone = buffer::text_between(lines, from.spot(), to.spot());
            let tail = text_behind(lines, to.spot());
            let after = edits::applied(lines, edits::edit_view(edit)).0;
            &&& buffer::join_text(lines) == head + gone + tail
            &&& buffer::join_text(after) == head + t + tail
            &&& r.start_byte == text::byte_len(head)
            &&& r.old_end_byte == text::byte_len(head + gone)
            &&& r.new_end_byte == r.start_byte + text::byte_len(t)
            &&& r.start_byte <= r.old_end_byte
        },
{
    let (from, to, t) = change_of(edit)->0;
    law_record_says_what_changed(lines, from.spot(), to.spot(), t);
    let head = text_before(lines, from.spot());
    text::lemma_byte_len_concat(head, buffer::text_between(lines, from.spot(), to.spot()));
    text::lemma_byte_len_concat(head, t);
    let rest = buffer::cut(lines, from.spot(), to.spot());
    if edit is DeleteRange {
        inverses::law_edits_keep_lines(lines, edit);
        lemma_nothing_inserted(rest, from.spot());
    } else if !(edit is Replace) {
        let line = lines[from.row as int];
        assert(line.take(from.col as int) + line.skip(from.col as int) =~= line);
        assert(rest =~= lines);
    }
}

/// Slices of adjoining ranges join to the slice of the whole range, and a slice
/// takes as many bytes as the offsets of its ends are apart.
pub proof fn law_slices_join(lines: Seq<Seq<char>>, a: (int, int), b: (int, int), c: (int, int))
    requires
        buffer::in_text(lines, a),
        buffer::in_text(lines, b),
        buffer::in_text(lines, c),
        buffer::at_or_before(a, b),
        buffer::at_or_before(b, c),
    ensures
        buffer_impl::range_text(lines, a, c) == buffer_impl::range_text(lines, a, b)
            + buffer_impl::range_text(lines, b, c),
        text::byte_len(buffer_impl::range_text(lines, a, b)) == buffer_impl::place_offset(lines, b)
            - buffer_impl::place_offset(lines, a),
{
    lemma_slice(lines, a, b);
    lemma_slice(lines, b, c);
    lemma_slice(lines, a, c);
    let whole = text_before(lines, c);
    let ab = buffer_impl::range_text(lines, a, b);
    let bc = buffer_impl::range_text(lines, b, c);
    let ac = buffer_impl::range_text(lines, a, c);
    let head = text_before(lines, a);
    assert(head + (ab + bc) =~= head + ab + bc);
    assert(whole.skip(head.len() as int) =~= ac) by {
        assert((head + ac).skip(head.len() as int) =~= ac);
    }
    assert(whole.skip(head.len() as int) =~= ab + bc) by {
        assert((head + (ab + bc)).skip(head.len() as int) =~= ab + bc);
    }
}

/// The text up to the end of a range is the text up to its start and the range.
proof fn lemma_slice(lines: Seq<Seq<char>>, a: (int, int), b: (int, int))
    requires
        buffer::in_text(lines, a),
        buffer::in_text(lines, b),
        buffer::at_or_before(a, b),
    ensures
        text_before(lines, b) == text_before(lines, a) + buffer_impl::range_text(lines, a, b),
        text::byte_len(buffer_impl::range_text(lines, a, b)) == buffer_impl::place_offset(lines, b)
            - buffer_impl::place_offset(lines, a),
{
    let s = buffer_impl::range_text(lines, a, b);
    let head = text_before(lines, a);
    let tail = text_behind(lines, b);
    if a == b {
        assert(head + s =~= head);
    } else {
        lemma_text_at(lines, a);
        lemma_text_at(lines, b);
        lemma_text_behind(lines, a, b);
        let whole = buffer::join_text(lines);
        assert(whole =~= head + s + tail);
        assert(whole == text_before(lines, b) + tail);
        let n = whole.len() - tail.len();
        assert(whole.take(n) =~= head + s);
        assert(whole.take(n) =~= text_before(lines, b));
    }
    lemma_text_at(lines, a);
    lemma_text_at(lines, b);
    text::lemma_byte_len_concat(head, s);
}

/// Lines with their line breaks are the first of them and then the others.
proof fn lemma_terminated_rows(a: Seq<Seq<char>>, b: Seq<Seq<char>>)
    ensures
        buffer::terminated(a + b) == buffer::terminated(a) + buffer::terminated(b),
    decreases b.len(),
{
    if b.len() == 0 {
        assert(a + b =~= a);
        assert(buffer::terminated(a) + buffer::terminated(b) =~= buffer::terminated(a));
    } else {
        lemma_terminated_rows(a, b.drop_last());
        assert((a + b).drop_last() =~= a + b.drop_last());
        assert(buffer::terminated(a + b) =~= buffer::terminated(a) + buffer::terminated(b));
    }
}

/// The byte record of deleting rows that are not the last says what changed:
/// the bytes up to its start and those from its old end on are the same before
/// and after, and the bytes between them are the rows with their line breaks.
pub proof fn law_rows_record_says_what_changed(
    lines: Seq<Seq<char>>,
    start: Position,
    end: Position,
)
    requires
        start.row <= end.row,
        end.row < lines.len() - 1,
        buffer::bytes_above(lines, lines.len() as int) <= usize::MAX,
    ensures
        ({
            let edit = Edit::DeleteRange { start, end, kind: MotionKind::Line };
            let r = content::content_edits(lines, edit)[0];
            let head = buffer::terminated(lines.take(start.row as int));
            let gone = buffer::rows_text(lines, start.row as int, end.row as int);
            let tail = buffer::join_text(lines.skip(end.row + 1));
            let after = buffer::rows_removed(lines, start.row as int, end.row as int);
            &&& content::content_edits(lines, edit).len() == 1
            &&& buffer::join_text(lines) == head + gone + tail
            &&& buffer::join_text(after) == head + tail
            &&& r.start_byte == text::byte_len(head)
            &&& r.old_end_byte == text::byte_len(head + gone)
            &&& r.new_end_byte == r.start_byte
        }),
{
    let lo = start.row as int;
    let hi = end.row as int;
    let above = lines.take(lo);
    let rows = lines.subrange(lo, hi + 1);
    let below = lines.skip(hi + 1);
    let head = buffer::terminated(above);
    assert(above + rows =~= lines.take(hi + 1));
    assert(above + rows + below =~= lines);
    lemma_terminated_rows(above, rows);
    lemma_terminated_join(rows);
    lemma_join_rows(above + rows, below);
    lemma_join_rows(above, below);
    lemma_terminated_bytes(lines, lo);
    lemma_terminated_bytes(lines, hi + 1);
    buffer::lemma_bytes_above_grows(lines, lo, lines.len() as int);
    buffer::lemma_bytes_above_grows(lines, hi + 1, lines.len() as int);
}

/// A place lies no more bytes into the text than the text has.
proof fn lemma_row_fits(lines: Seq<Seq<char>>, at: (int, int))
    requires
        buffer::in_text(lines, at),
    ensures
        buffer::bytes_above(lines, at.0) + text::byte_len(lines[at.0].take(at.1))
            < buffer::bytes_above(lines, lines.len() as int),
{
    let line = lines[at.0];
    text::lemma_byte_len_concat(line.take(at.1), line.skip(at.1));
    assert(line.take(at.1) + line.skip(at.1) =~= line);
    buffer::lemma_bytes_above_grows(lines, at.0 + 1, lines.len() as int);
}

// ── Logged changes ──────────────────────────────────────────────────

/// A place counts its row and its column in 32 bits.
pub open spec fn counts_in_32_bits(p: Position) -> bool {
    p.row <= u32::MAX && p.col <= u32::MAX
}

/// The places of a range count in 32 bits, and the first is not behind the
/// second.
pub open spec fn in_order(start: Position, end: Position) -> bool {
    &&& counts_in_32_bits(start)
    &&& counts_in_32_bits(end)
    &&& buffer::at_or_before(start.spot(), end.spot())
}

/// The logged change of an insertion, of a charwise deletion or of a
/// replacement is exact: a store that puts the logged text in place of the
/// logged range has the text that the edit makes. The places of the edit have
/// to count in 32 bits and to come in order. (A replacement that starts past
/// the end of its line goes further right where something is left behind it.)
pub proof fn law_logged_change_is_exact(lines: Seq<Seq<char>>, edit: Edit)
    requires
        edits::clean(lines),
        edits::applicable(lines, edits::edit_view(edit)),
        match edit {
            Edit::InsertChar { at, .. } => counts_in_32_bits(at),
            Edit::InsertStr { at, .. } => counts_in_32_bits(at),
            Edit::DeleteRange { start, end, kind } => kind is Char && in_order(start, end),
            Edit::Replace { start, end, .. } => {
                &&& in_order(start, end)
                &&& start.col <= lines[start.row as int].len() || end.col
                    >= lines[end.row as int].len()
            },
            _ => false,
        },
    ensures
        content::edit_ops(edit).len() == 1,
        ({
            let op = content::edit_ops(edit)[0];
            buffer_impl::range_replaced(
                lines,
                buffer_impl::as_place(op.0),
                buffer_impl::as_place(op.1),
                op.2,
            ).0 == edits::applied(lines, edits::edit_view(edit)).0
        }),
{
    match edit {
        Edit::DeleteRange { start, end, .. } => {
            let from = buffer::clamp(lines, start.spot());
            let to = buffer::clamp(lines, end.spot());
            let rest = buffer::cut(lines, start.spot(), end.spot());
            assert(rest =~= buffer::cut(lines, from, to));
            lemma_nothing_inserted(lines, from);
            if buffer::at_or_before(to, from) {
                assert(from == to);
                let line = lines[from.0];
                assert(line.take(from.1) + line.skip(from.1) =~= line);
                assert(rest =~= lines);
            } else {
                inverses::law_edits_keep_lines(lines, edit);
                lemma_nothing_inserted(rest, buffer::clamp(rest, from));
            }
        },
        Edit::Replace { start, end, with } => {
            let from = buffer::clamp(lines, start.spot());
            let to = buffer::clamp(lines, end.spot());
            let rest = buffer::cut(lines, start.spot(), end.spot());
            assert(rest =~= buffer::cut(lines, from, to));
            let line = lines[from.0];
            assert(rest[from.0] == line.take(from.1) + lines[to.0].skip(to.1));
            assert(buffer::clamp(rest, start.spot()) == buffer::clamp(rest, from));
            if buffer::at_or_before(to, from) {
                assert(from == to);
                assert(line.take(from.1) + line.skip(from.1) =~= line);
                assert(rest =~= lines);
            }
        },
        _ => {},
    }
}

/// Inserting nothing leaves the lines as they are.
proof fn lemma_nothing_inserted(lines: Seq<Seq<char>>, at: (int, int))
    requires
        edits::clean(lines),
        buffer::in_text(lines, at),
    ensures
        buffer::spliced(lines, at, Seq::<char>::empty()) == lines,
{
    let line = lines[at.0];
    assert(line.take(at.1) + Seq::<char>::empty() + line.skip(at.1) =~= line);
    assert(edits::unbroken(lines[at.0]));
    edits::lemma_split_unbroken(line);
    assert(lines.take(at.0) + seq![line] + lines.skip(at.0 + 1) =~= lines);
}

} // verus!
