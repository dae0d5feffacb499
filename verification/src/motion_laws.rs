//! What motions promise, in terms of the text alone.
use vstd::prelude::*;

use crate::buffer;
use crate::buffer::Viewport;
use crate::buffer_impl;
use crate::folds;
use crate::motions;
use crate::rope;
use crate::surface::{Cursor, Query};
use crate::text;
use crate::viewport_math;

verus! {

// ── Brackets ────────────────────────────────────────────────────────

/// The four pairs of brackets.
pub open spec fn is_pair(open: char, close: char) -> bool {
    ||| open == '(' && close == ')'
    ||| open == '[' && close == ']'
    ||| open == '{' && close == '}'
    ||| open == '<' && close == '>'
}

/// How often a character occurs in a text.
pub open spec fn occurrences(t: Seq<char>, c: char) -> int
    decreases t.len(),
{
    if t.len() == 0 {
        0
    } else {
        occurrences(t.drop_last(), c) + if t.last() == c {
            1int
        } else {
            0
        }
    }
}

/// Every bracket of a pair that a text opens it closes too, and it closes none
/// that it did not open before.
pub open spec fn balanced(t: Seq<char>, open: char, close: char) -> bool {
    &&& occurrences(t, open) == occurrences(t, close)
    &&& forall|k: int|
        0 <= k <= t.len() ==> occurrences(#[trigger] t.take(k), close) <= occurrences(
            t.take(k),
            open,
        )
}

/// The characters from a place up to another, row by row.
pub open spec fn chars_between(rows: Seq<Seq<char>>, a: (int, int), b: (int, int)) -> Seq<char>
    decreases b.0, b.1,
{
    if !motions::before(a, b) {
        Seq::<char>::empty()
    } else if b.1 > 0 {
        chars_between(rows, a, (b.0, b.1 - 1)).push(rows[b.0][b.1 - 1])
    } else if b.0 > 0 {
        chars_between(rows, a, (b.0 - 1, rows[b.0 - 1].len() as int))
    } else {
        Seq::<char>::empty()
    }
}

/// A place holds a character.
pub open spec fn holds(rows: Seq<Seq<char>>, p: (int, int), c: char) -> bool {
    0 <= p.0 < rows.len() && 0 <= p.1 < rows[p.0].len() && rows[p.0][p.1] == c
}

/// An opening bracket at `p` and the closing one at `q` enclose a balanced text.
pub open spec fn encloses(
    rows: Seq<Seq<char>>,
    open: char,
    close: char,
    p: (int, int),
    q: (int, int),
) -> bool {
    &&& is_pair(open, close)
    &&& holds(rows, p, open)
    &&& holds(rows, q, close)
    &&& motions::before(p, q)
    &&& balanced(chars_between(rows, (p.0, p.1 + 1), q), open, close)
}

/// The depth grows with the brackets on the way.
proof fn lemma_depth(
    rows: Seq<Seq<char>>,
    open: char,
    close: char,
    a: (int, int),
    b: (int, int),
)
    requires
        open != close,
        motions::is_place(rows, a),
        motions::is_place(rows, b),
        buffer::at_or_before(a, b),
    ensures
        motions::depth(rows, open, close, b) == motions::depth(rows, open, close, a)
            + occurrences(chars_between(rows, a, b), open) - occurrences(
            chars_between(rows, a, b),
            close,
        ),
    decreases b.0, b.1,
{
    if a != b {
        let t = chars_between(rows, a, b);
        if b.1 > 0 {
            let c = (b.0, b.1 - 1);
            lemma_depth(rows, open, close, a, c);
            assert(t.drop_last() =~= chars_between(rows, a, c));
        } else {
            lemma_depth(rows, open, close, a, (b.0 - 1, rows[b.0 - 1].len() as int));
        }
    }
}

/// What lies between a place and one on the way is the start of what lies
/// between it and the end.
proof fn lemma_between_prefix(
    rows: Seq<Seq<char>>,
    a: (int, int),
    m: (int, int),
    b: (int, int),
)
    requires
        motions::is_place(rows, a),
        motions::is_place(rows, m),
        motions::is_place(rows, b),
        buffer::at_or_before(a, m),
        buffer::at_or_before(m, b),
    ensures
        chars_between(rows, a, m).len() <= chars_between(rows, a, b).len(),
        chars_between(rows, a, b).take(chars_between(rows, a, m).len() as int) == chars_between(
            rows,
            a,
            m,
        ),
    decreases b.0, b.1,
{
    let t = chars_between(rows, a, b);
    let s = chars_between(rows, a, m);
    if m == b {
        assert(t.take(t.len() as int) =~= t);
    } else if b.1 > 0 {
        lemma_between_prefix(rows, a, m, (b.0, b.1 - 1));
        let u = chars_between(rows, a, (b.0, b.1 - 1));
        assert(t.take(s.len() as int) =~= u.take(s.len() as int));
    } else {
        lemma_between_prefix(rows, a, m, (b.0 - 1, rows[b.0 - 1].len() as int));
    }
}

/// Every start of what lies between two places ends at a place on the way.
proof fn lemma_prefix_ends(rows: Seq<Seq<char>>, a: (int, int), b: (int, int), k: int) -> (m: (
    int,
    int,
))
    requires
        motions::is_place(rows, a),
        motions::is_place(rows, b),
        buffer::at_or_before(a, b),
        0 <= k <= chars_between(rows, a, b).len(),
    ensures
        motions::is_place(rows, m),
        buffer::at_or_before(a, m),
        buffer::at_or_before(m, b),
        chars_between(rows, a, m) == chars_between(rows, a, b).take(k),
    decreases b.0, b.1,
{
    let t = chars_between(rows, a, b);
    if k == t.len() {
        assert(t.take(k) =~= t);
        b
    } else if b.1 > 0 {
        let u = chars_between(rows, a, (b.0, b.1 - 1));
        assert(t.take(k) =~= u.take(k));
        lemma_prefix_ends(rows, a, (b.0, b.1 - 1), k)
    } else {
        lemma_prefix_ends(rows, a, (b.0 - 1, rows[b.0 - 1].len() as int), k)
    }
}

/// `%` knows the four pairs of brackets and no others: an opening bracket and a
/// later closing one belong together exactly where the text between them is
/// balanced, seen from either of them, and no other character belongs together
/// with any.
pub proof fn law_brackets_enclose(rows: Seq<Seq<char>>, p: (int, int), q: (int, int))
    ensures
        motions::partners(rows, p, q) <==> exists|open: char, close: char|
            encloses(rows, open, close, p, q) || encloses(rows, open, close, q, p),
{
    assert forall|open: char, close: char| encloses(rows, open, close, p, q) implies {
        motions::partners(rows, p, q) && motions::partners(rows, q, p)
    } by {
        lemma_encloses(rows, open, close, p, q);
    }
    assert forall|open: char, close: char| encloses(rows, open, close, q, p) implies {
        motions::partners(rows, p, q) && motions::partners(rows, q, p)
    } by {
        lemma_encloses(rows, open, close, q, p);
    }
    if motions::partners(rows, p, q) {
        let (open, close, forward) = motions::bracket(rows[p.0][p.1])->0;
        if forward {
            lemma_pair_encloses(rows, open, close, p, q);
        } else {
            lemma_pair_encloses(rows, open, close, q, p);
        }
    }
}

proof fn lemma_encloses(
    rows: Seq<Seq<char>>,
    open: char,
    close: char,
    p: (int, int),
    q: (int, int),
)
    requires
        encloses(rows, open, close, p, q),
    ensures
        motions::partners(rows, p, q),
        motions::partners(rows, q, p),
{
    let a = (p.0, p.1 + 1);
    let t = chars_between(rows, a, q);
    let d = motions::depth(rows, open, close, p);
    assert(motions::depth(rows, open, close, a) == d + 1);
    lemma_depth(rows, open, close, a, q);
    assert forall|i: int, j: int|
        motions::is_place(rows, (i, j)) && motions::strictly_before(p, (i, j))
            && buffer::at_or_before((i, j), q) implies #[trigger] motions::depth(
        rows,
        open,
        close,
        (i, j),
    ) > d by {
        lemma_depth(rows, open, close, a, (i, j));
        lemma_between_prefix(rows, a, (i, j), q);
        let k = chars_between(rows, a, (i, j)).len() as int;
        assert(occurrences(t.take(k), close) <= occurrences(t.take(k), open));
    }
    assert(motions::depth(rows, open, close, (q.0, q.1 + 1)) == d);
}

proof fn lemma_pair_encloses(
    rows: Seq<Seq<char>>,
    open: char,
    close: char,
    p: (int, int),
    q: (int, int),
)
    requires
        is_pair(open, close),
        motions::brackets_pair(rows, open, close, p, q),
    ensures
        encloses(rows, open, close, p, q),
{
    let a = (p.0, p.1 + 1);
    let t = chars_between(rows, a, q);
    let d = motions::depth(rows, open, close, p);
    assert(motions::depth(rows, open, close, a) == d + 1);
    assert(motions::depth(rows, open, close, (q.0, q.1 + 1)) == motions::depth(
        rows,
        open,
        close,
        q,
    ) - 1);
    lemma_depth(rows, open, close, a, q);
    assert forall|k: int| 0 <= k <= t.len() implies occurrences(#[trigger] t.take(k), close)
        <= occurrences(t.take(k), open) by {
        let m = lemma_prefix_ends(rows, a, q, k);
        lemma_depth(rows, open, close, a, m);
        assert(motions::depth(rows, open, close, (m.0, m.1)) > d);
    }
}

/// A jump from a bracket finds the one that it encloses a balanced text with,
/// and lands there.
pub proof fn law_bracket_jump_lands<B: Cursor>(
    b: B,
    a: B,
    moved: bool,
    open: char,
    close: char,
    q: (int, int),
)
    requires
        motions::bracket_jumped(b, a, moved),
        encloses(b.rows(), open, close, motions::cursor_place(b), q) || encloses(
            b.rows(),
            open,
            close,
            q,
            motions::cursor_place(b),
        ),
    ensures
        moved,
        a.at() == b.placed(buffer_impl::as_pos(q)),
        a.rows() == b.rows(),
{
    let p = motions::cursor_place(b);
    law_brackets_enclose(b.rows(), p, q);
    assert(motions::partners(b.rows(), p, q));
    if moved {
        let r = choose|r: (int, int)|
            #[trigger] motions::partners(b.rows(), p, r) && motions::sent(b, a, r);
        motions::law_match_is_unique(b.rows(), p, q, r);
    }
}

// ── Words ───────────────────────────────────────────────────────────

/// A character of a row that is no blank.
pub open spec fn inked(rows: Seq<Seq<char>>, p: (int, int)) -> bool {
    0 <= p.0 < rows.len() && 0 <= p.1 < rows[p.0].len() && !text::white_space(rows[p.0][p.1])
}

/// The `iskeyword` list decides what a small word is: between two neighbours on
/// a row that are both no blanks one word ends and the next starts exactly where
/// the list has one of them and not the other. Big words end at blanks only. A
/// blank lies in no word, a row ends every word, and a word lies in its row.
pub proof fn law_words_follow_the_list(
    rows: Seq<Seq<char>>,
    p: (int, int),
    big: bool,
    list: Seq<char>,
)
    ensures
        ({
            let q = (p.0, p.1 + 1);
            let parted = !big && rope::keyword(rows[p.0][p.1], list) != rope::keyword(
                rows[q.0][q.1],
                list,
            );
            &&& motions::word_starts(rows, p, big, list) ==> inked(rows, p)
            &&& motions::word_ends(rows, p, big, list) ==> inked(rows, p)
            &&& inked(rows, p) && inked(rows, q) ==> {
                &&& motions::word_ends(rows, p, big, list) == parted
                &&& motions::word_starts(rows, q, big, list) == parted
            }
            &&& inked(rows, p) && !inked(rows, q) ==> motions::word_ends(rows, p, big, list)
            &&& !inked(rows, p) && inked(rows, q) ==> motions::word_starts(rows, q, big, list)
            &&& inked(rows, p) && p.1 == 0 ==> motions::word_starts(rows, p, big, list)
        }),
{
}

/// Whether a step from a place may go past another: it holds no start of a word
/// that the list tells apart from what stands before it, and it is no empty row.
pub open spec fn w_passes(rows: Seq<Seq<char>>, q: (int, int), big: bool, list: Seq<char>) -> bool {
    let row = rows[q.0];
    &&& !(q.1 == 0 && row.len() == 0)
    &&& 0 <= q.1 < row.len() ==> {
        ||| text::white_space(row[q.1])
        ||| q.1 > 0 && !text::white_space(row[q.1 - 1]) && (big || rope::keyword(row[q.1], list)
            == rope::keyword(row[q.1 - 1], list))
    }
}

/// `w` goes to the first place behind the cursor that it may not pass: the
/// start of a word, or an empty row. Where it may pass all of them it goes to
/// the end of the text.
pub proof fn law_w_stops_where_it_may_not_pass(
    rows: Seq<Seq<char>>,
    p: (int, int),
    big: bool,
    list: Seq<char>,
)
    requires
        0 <= p.0 < rows.len(),
        0 <= p.1,
    ensures
        ({
            let w = motions::next_word_start(rows, p, big, list);
            &&& forall|i: int, j: int|
                0 <= i < rows.len() && 0 <= j && (p.0 < i || (p.0 == i && p.1 < j)) && (i < w.0
                    || (i == w.0 && j < w.1)) ==> #[trigger] w_passes(rows, (i, j), big, list)
            &&& {
                ||| {
                    &&& p.0 < w.0 || (p.0 == w.0 && p.1 < w.1)
                    &&& 0 <= w.0 < rows.len()
                    &&& !w_passes(rows, w, big, list)
                }
                ||| {
                    &&& w == (rows.len() - 1, rows[rows.len() - 1].len() as int)
                    &&& forall|i: int, j: int|
                        0 <= i < rows.len() && 0 <= j && (p.0 < i || (p.0 == i && p.1 < j))
                            ==> #[trigger] w_passes(rows, (i, j), big, list)
                }
            }
        }),
{
    motions::law_word_motions_lead_to_nearest_word(rows, p, big, list);
    let w = motions::next_word_start(rows, p, big, list);
    assert forall|i: int, j: int|
        0 <= i < rows.len() && 0 <= j && !#[trigger] w_passes(
            rows,
            (i, j),
            big,
            list,
        ) implies motions::word_starts(rows, (i, j), big, list) || motions::empty_row_at(
        rows,
        (i, j),
    ) by {}
    let found = motions::before(p, w) && (motions::word_starts(rows, w, big, list)
        || motions::empty_row_at(rows, w)) && forall|q: (int, int)|
        motions::before(p, q) && motions::before(q, w) ==> !(#[trigger] motions::word_starts(
            rows,
            q,
            big,
            list,
        ) || motions::empty_row_at(rows, q));
    assert forall|i: int, j: int|
        0 <= i < rows.len() && 0 <= j && motions::before(p, (i, j)) && (!found || motions::before(
            (i, j),
            w,
        )) implies #[trigger] w_passes(rows, (i, j), big, list) by {
        let q = (i, j);
        assert(!(motions::word_starts(rows, q, big, list) || motions::empty_row_at(rows, q)));
    }
}

// ── Screen rows ─────────────────────────────────────────────────────

/// Every row of a text is broken into screen rows without a gap.
pub open spec fn all_tiled(rows: Seq<Seq<char>>, v: Viewport) -> bool {
    forall|i: int|
        0 <= i < rows.len() ==> rope::tiles(
            motions::screen_rows(#[trigger] rows[i], v),
            rows[i].len() as int,
        )
}

/// The segments of a line rise.
proof fn lemma_tiles_in_order(segs: Seq<(usize, usize)>, len: int, i: int, j: int)
    requires
        rope::tiles(segs, len),
        0 <= i < j < segs.len(),
    ensures
        segs[i].1 <= segs[j].0,
    decreases j - i,
{
    if i + 1 < j {
        lemma_tiles_in_order(segs, len, i, j - 1);
        assert(segs[j - 1].0 < segs[j - 1].1);
        assert(segs[j - 1].1 == segs[j].0);
    } else {
        assert(segs[i].1 == segs[i + 1].0);
    }
}

/// The column a motion aims at lies on the screen row that it was meant for, as
/// far into it as it was meant to be or at its end.
proof fn lemma_segment_col(segs: Seq<(usize, usize)>, line: Seq<char>, k: int, want: int)
    requires
        rope::tiles(segs, line.len() as int),
        0 <= k < segs.len(),
        0 <= want,
    ensures
        ({
            let col = motions::segment_col(segs[k], want, line);
            let room = segs[k].1 - segs[k].0 - 1;
            &&& rope::segment_of(segs, col) == k
            &&& 0 <= col
            &&& line.len() > 0 ==> col < line.len()
            &&& col - segs[k].0 == if want <= room {
                want
            } else if room >= 0 {
                room
            } else {
                0
            }
        }),
{
    let col = motions::segment_col(segs[k], want, line);
    let n = line.len() as int;
    if k < segs.len() - 1 {
        lemma_tiles_in_order(segs, n, k, segs.len() - 1);
    }
    if k > 0 {
        lemma_tiles_in_order(segs, n, 0, k);
    }
    assert(segs[k].0 < segs[k].1 || (n == 0 && segs.len() == 1));
    assert(segs[segs.len() - 1].0 < segs[segs.len() - 1].1 || (n == 0 && segs.len() == 1));
    let p = |s: (usize, usize)| s.0 <= col < s.1;
    if n == 0 {
        assert(segs.len() == 1) by {
            if segs.len() > 1 {
                lemma_tiles_in_order(segs, n, 0, segs.len() - 1);
            }
        }
        buffer::lemma_first_where_range(segs, p);
    } else {
        assert(segs[k].0 <= col < segs[k].1);
        assert forall|i: int| 0 <= i < k implies !p(#[trigger] segs[i]) by {
            lemma_tiles_in_order(segs, n, i, k);
        }
        buffer::lemma_first_where(segs, p, k);
    }
}

/// The heights of rows add up at a visible neighbour: hidden rows take none.
proof fn lemma_hidden_rows(
    rows: Seq<Seq<char>>,
    folds: Seq<(int, int, bool)>,
    v: Viewport,
    from: int,
    to: int,
)
    requires
        0 <= from <= to,
        forall|k: int| from <= k < to ==> #[trigger] buffer::hidden(folds, k),
    ensures
        viewport_math::height_between(rows, folds, v, 0, to) == viewport_math::height_between(
            rows,
            folds,
            v,
            0,
            from,
        ),
    decreases to - from,
{
    if from < to {
        lemma_hidden_rows(rows, folds, v, from, to - 1);
        assert(buffer::hidden(folds, to - 1));
    }
}

/// One step of `gj` or `gk` moves by one screen row, counted over the visible
/// rows and the screen rows that each of them takes, also where it crosses from
/// one row of the text to the next. It keeps the distance from the start of the
/// screen row, as far as the new one is long enough. It leads nowhere exactly on
/// the last screen row, or on the first.
pub proof fn law_screen_step_moves_one_row(
    rows: Seq<Seq<char>>,
    folds: Seq<(int, int, bool)>,
    v: Viewport,
    down: bool,
    want: int,
    p: (int, int),
)
    requires
        0 <= p.0 < rows.len(),
        0 <= p.1,
        0 <= want,
        !buffer::hidden(folds, p.0),
        all_tiled(rows, v),
    ensures
        ({
            let n = rows.len() as int;
            let here = viewport_math::screen_row(rows, folds, v, 0, p)->0;
            match motions::screen_step(rows, folds, n, v, down, want, p) {
                Some(q) => {
                    let segs = motions::screen_rows(rows[q.0], v);
                    let seg = segs[rope::segment_of(segs, q.1)];
                    let room = seg.1 - seg.0 - 1;
                    &&& 0 <= q.0 < n
                    &&& 0 <= q.1
                    &&& rows[q.0].len() > 0 ==> q.1 < rows[q.0].len()
                    &&& !buffer::hidden(folds, q.0)
                    &&& viewport_math::screen_row(rows, folds, v, 0, q) == Some(
                        here + if down {
                            1int
                        } else {
                            -1
                        },
                    )
                    &&& q.1 - seg.0 == if want <= room {
                        want
                    } else if room >= 0 {
                        room
                    } else {
                        0
                    }
                },
                None => if down {
                    here + 1 == viewport_math::height_between(rows, folds, v, 0, n)
                } else {
                    here == 0
                },
            }
        }),
{
    let n = rows.len() as int;
    let line = rows[p.0];
    let segs = motions::screen_rows(line, v);
    motions::lemma_segment_of_in(segs, p.1);
    let i = rope::segment_of(segs, p.1);
    if down && i + 1 < segs.len() {
        lemma_segment_col(segs, line, i + 1, want);
    } else if !down && i > 0 {
        lemma_segment_col(segs, line, i - 1, want);
    } else if down {
        folds::law_next_visible(folds, n, p.0);
        match buffer::next_visible(folds, n, p.0) {
            Some(r) => {
                lemma_segment_col(motions::screen_rows(rows[r], v), rows[r], 0, want);
                lemma_hidden_rows(rows, folds, v, p.0 + 1, r);
            },
            None => {
                lemma_hidden_rows(rows, folds, v, p.0 + 1, n);
            },
        }
    } else {
        folds::law_prev_visible(folds, p.0);
        match buffer::prev_visible(folds, p.0) {
            Some(r) => {
                let above = motions::screen_rows(rows[r], v);
                lemma_segment_col(above, rows[r], above.len() - 1, want);
                lemma_hidden_rows(rows, folds, v, r + 1, p.0);
            },
            None => {
                lemma_hidden_rows(rows, folds, v, 0, p.0);
            },
        }
    }
}

/// `gj` and then `gk` come back to the screen row they left, and so do `gk` and
/// then `gj`.
pub proof fn law_screen_steps_come_back(
    rows: Seq<Seq<char>>,
    folds: Seq<(int, int, bool)>,
    v: Viewport,
    down: bool,
    want: int,
    p: (int, int),
)
    requires
        0 <= p.0 < rows.len(),
        0 <= p.1,
        0 <= want,
        !buffer::hidden(folds, p.0),
        all_tiled(rows, v),
        motions::screen_step(rows, folds, rows.len() as int, v, down, want, p) is Some,
    ensures
        ({
            let n = rows.len() as int;
            let there = motions::screen_step(rows, folds, n, v, down, want, p)->0;
            &&& motions::screen_step(rows, folds, n, v, !down, want, there) is Some
            &&& viewport_math::screen_row(
                rows,
                folds,
                v,
                0,
                motions::screen_step(rows, folds, n, v, !down, want, there)->0,
            ) == viewport_math::screen_row(rows, folds, v, 0, p)
        }),
{
    let n = rows.len() as int;
    law_screen_step_moves_one_row(rows, folds, v, down, want, p);
    let q = motions::screen_step(rows, folds, n, v, down, want, p)->0;
    law_screen_step_moves_one_row(rows, folds, v, !down, want, q);
    lemma_screen_row_bound(rows, folds, v, p);
}

/// A visible place lies on one of the screen rows of the text.
proof fn lemma_screen_row_bound(
    rows: Seq<Seq<char>>,
    folds: Seq<(int, int, bool)>,
    v: Viewport,
    p: (int, int),
)
    requires
        0 <= p.0 < rows.len(),
        0 <= p.1,
        !buffer::hidden(folds, p.0),
        all_tiled(rows, v),
    ensures
        ({
            let r = viewport_math::screen_row(rows, folds, v, 0, p)->0;
            0 <= r < viewport_math::height_between(rows, folds, v, 0, rows.len() as int)
        }),
{
    let segs = motions::screen_rows(rows[p.0], v);
    motions::lemma_segment_of_in(segs, p.1);
    lemma_heights_grow(rows, folds, v, 0, p.0);
    lemma_heights_grow(rows, folds, v, p.0 + 1, rows.len() as int);
}

proof fn lemma_heights_grow(
    rows: Seq<Seq<char>>,
    folds: Seq<(int, int, bool)>,
    v: Viewport,
    a: int,
    b: int,
)
    requires
        0 <= a <= b,
    ensures
        0 <= viewport_math::height_between(rows, folds, v, 0, a) <= viewport_math::height_between(
            rows,
            folds,
            v,
            0,
            b,
        ),
    decreases a, b - a,
{
    if a < b {
        lemma_heights_grow(rows, folds, v, a, b - 1);
    } else if a > 0 {
        lemma_heights_grow(rows, folds, v, a - 1, a - 1);
    }
}

/// Two visible places on the same screen row lie on the same row of the text and
/// on the same part of it.
proof fn lemma_same_screen_row(
    rows: Seq<Seq<char>>,
    folds: Seq<(int, int, bool)>,
    v: Viewport,
    p: (int, int),
    q: (int, int),
)
    requires
        0 <= p.0 < rows.len(),
        0 <= q.0 < rows.len(),
        !buffer::hidden(folds, p.0),
        !buffer::hidden(folds, q.0),
        all_tiled(rows, v),
        viewport_math::screen_row(rows, folds, v, 0, p) == viewport_math::screen_row(
            rows,
            folds,
            v,
            0,
            q,
        ),
    ensures
        p.0 == q.0,
        rope::segment_of(motions::screen_rows(rows[p.0], v), p.1) == rope::segment_of(
            motions::screen_rows(rows[q.0], v),
            q.1,
        ),
{
    motions::lemma_segment_of_in(motions::screen_rows(rows[p.0], v), p.1);
    motions::lemma_segment_of_in(motions::screen_rows(rows[q.0], v), q.1);
    if p.0 < q.0 {
        lemma_heights_grow(rows, folds, v, p.0 + 1, q.0);
    } else if q.0 < p.0 {
        lemma_heights_grow(rows, folds, v, q.0 + 1, p.0);
    }
}

/// `gj` and then `gk` come back to the very place they left where that is a
/// character, and so do `gk` and then `gj`.
pub proof fn law_screen_steps_come_back_exactly(
    rows: Seq<Seq<char>>,
    folds: Seq<(int, int, bool)>,
    v: Viewport,
    down: bool,
    p: (int, int),
)
    requires
        0 <= p.0 < rows.len(),
        0 <= p.1 < rows[p.0].len(),
        !buffer::hidden(folds, p.0),
        all_tiled(rows, v),
        motions::screen_step(
            rows,
            folds,
            rows.len() as int,
            v,
            down,
            motions::visual_col(rows, v, p),
            p,
        ) is Some,
    ensures
        ({
            let n = rows.len() as int;
            let want = motions::visual_col(rows, v, p);
            let there = motions::screen_step(rows, folds, n, v, down, want, p)->0;
            motions::screen_step(rows, folds, n, v, !down, want, there) == Some(p)
        }),
{
    let n = rows.len() as int;
    let want = motions::visual_col(rows, v, p);
    law_screen_steps_come_back(rows, folds, v, down, want, p);
    law_screen_step_moves_one_row(rows, folds, v, down, want, p);
    let q = motions::screen_step(rows, folds, n, v, down, want, p)->0;
    law_screen_step_moves_one_row(rows, folds, v, !down, want, q);
    let r = motions::screen_step(rows, folds, n, v, !down, want, q)->0;
    lemma_same_screen_row(rows, folds, v, p, r);
    lemma_on_segment(motions::screen_rows(rows[p.0], v), rows[p.0].len() as int, p.1);
}

/// A column of a line lies on its segment.
proof fn lemma_on_segment(segs: Seq<(usize, usize)>, len: int, col: int)
    requires
        rope::tiles(segs, len),
        0 <= col < len,
    ensures
        segs[rope::segment_of(segs, col)].0 <= col < segs[rope::segment_of(segs, col)].1,
{
    let p = |s: (usize, usize)| s.0 <= col < s.1;
    buffer::lemma_first_where_range(segs, p);
    if buffer::first_where(segs, p) == segs.len() {
        lemma_reaches(segs, len, col, 0);
    }
}

proof fn lemma_reaches(segs: Seq<(usize, usize)>, len: int, col: int, i: int)
    requires
        rope::tiles(segs, len),
        0 <= i < segs.len(),
        segs[i].0 <= col < len,
    ensures
        exists|k: int| 0 <= k < segs.len() && (#[trigger] segs[k]).0 <= col < segs[k].1,
    decreases segs.len() - i,
{
    if col >= segs[i].1 {
        assert(i < segs.len() - 1);
        assert(segs[i].1 == segs[i + 1].0);
        lemma_reaches(segs, len, col, i + 1);
    }
}

/// `gj` and `gk` with a count move by that many screen rows, as far as there are.
/// This is stated of a buffer whose rows and columns count in 32 bits.
pub proof fn law_screen_motion_counts<F: crate::folds::FoldProvider>(
    b: hjkl_buffer::Buffer,
    folds: F,
    v: Viewport,
    count: nat,
    down: bool,
)
    requires
        rope::buffer_lines(b).len() <= u32::MAX,
        forall|i: int|
            0 <= i < rope::buffer_lines(b).len() ==> (#[trigger] rope::buffer_lines(b)[i]).len()
                <= u32::MAX,
        folds.row_limit(rope::buffer_lines(b).len() as int) == rope::buffer_lines(b).len(),
        all_tiled(rope::buffer_lines(b), v),
        motions::cursor_place(b).0 < rope::buffer_lines(b).len(),
        !buffer::hidden(folds.fold_list(), motions::cursor_place(b).0),
    ensures
        ({
            let lines = rope::buffer_lines(b);
            let list = folds.fold_list();
            let here = viewport_math::screen_row(lines, list, v, 0, motions::cursor_place(b))->0;
            let last = viewport_math::height_between(lines, list, v, 0, lines.len() as int) - 1;
            let to = buffer_impl::as_place(motions::screen_target(b, folds, v, count as int, down));
            viewport_math::screen_row(lines, list, v, 0, to) == Some(
                if down {
                    if here + count <= last {
                        here + count
                    } else {
                        last
                    }
                } else {
                    if here >= count {
                        here - count
                    } else {
                        0
                    }
                },
            )
        }),
{
    assert(b.rows() =~= rope::buffer_lines(b));
    let want = motions::visual_col(b.rows(), v, motions::cursor_place(b));
    let f = |p: (int, int)|
        motions::screen_step(
            b.rows(),
            folds.fold_list(),
            folds.row_limit(b.rows().len() as int),
            v,
            down,
            want,
            p,
        );
    lemma_repeated_steps(b, folds, v, down, want, f, b.at(), count);
}

proof fn lemma_repeated_steps<F: crate::folds::FoldProvider>(
    b: hjkl_buffer::Buffer,
    folds: F,
    v: Viewport,
    down: bool,
    want: int,
    f: spec_fn((int, int)) -> Option<(int, int)>,
    at: crate::types::Pos,
    count: nat,
)
    requires
        rope::buffer_lines(b).len() <= u32::MAX,
        forall|i: int|
            0 <= i < rope::buffer_lines(b).len() ==> (#[trigger] rope::buffer_lines(b)[i]).len()
                <= u32::MAX,
        folds.row_limit(rope::buffer_lines(b).len() as int) == rope::buffer_lines(b).len(),
        all_tiled(rope::buffer_lines(b), v),
        at.line < rope::buffer_lines(b).len(),
        !buffer::hidden(folds.fold_list(), at.line as int),
        0 <= want,
        forall|p: (int, int)| #[trigger]
            f(p) == motions::screen_step(
                rope::buffer_lines(b),
                folds.fold_list(),
                rope::buffer_lines(b).len() as int,
                v,
                down,
                want,
                p,
            ),
    ensures
        ({
            let lines = rope::buffer_lines(b);
            let list = folds.fold_list();
            let here = viewport_math::screen_row(lines, list, v, 0, buffer_impl::as_place(at))->0;
            let last = viewport_math::height_between(lines, list, v, 0, lines.len() as int) - 1;
            let to = buffer_impl::as_place(motions::repeated(b, at, count, f));
            viewport_math::screen_row(lines, list, v, 0, to) == Some(
                if down {
                    if here + count <= last {
                        here + count
                    } else {
                        last
                    }
                } else {
                    if here >= count {
                        here - count
                    } else {
                        0
                    }
                },
            )
        }),
    decreases count,
{
    let lines = rope::buffer_lines(b);
    let list = folds.fold_list();
    let p = buffer_impl::as_place(at);
    lemma_screen_row_bound(lines, list, v, p);
    law_screen_step_moves_one_row(lines, list, v, down, want, p);
    if count > 0 {
        if let Some(q) = f(p) {
            let next = b.placed(buffer_impl::as_pos(q));
            assert(buffer_impl::as_place(next) == q);
            lemma_screen_row_bound(lines, list, v, q);
            lemma_repeated_steps(b, folds, v, down, want, f, next, (count - 1) as nat);
        }
    }
}

// ── Rows and columns ────────────────────────────────────────────────

/// How many rows from `a` up to `b`, `b` itself among them, no closed fold hides.
pub open spec fn shown_between(folds: Seq<(int, int, bool)>, a: int, b: int) -> int
    decreases b - a,
{
    if b <= a {
        0
    } else {
        shown_between(folds, a, b - 1) + if buffer::hidden(folds, b) {
            0int
        } else {
            1
        }
    }
}

proof fn lemma_shown_between(folds: Seq<(int, int, bool)>, a: int, m: int, b: int)
    requires
        a <= m <= b,
    ensures
        shown_between(folds, a, b) == shown_between(folds, a, m) + shown_between(folds, m, b),
        0 <= shown_between(folds, m, b),
    decreases b - m,
{
    if m < b {
        lemma_shown_between(folds, a, m, b - 1);
    }
}

proof fn lemma_none_shown(folds: Seq<(int, int, bool)>, a: int, b: int)
    requires
        forall|k: int| a < k <= b ==> #[trigger] buffer::hidden(folds, k),
    ensures
        shown_between(folds, a, b) == 0,
    decreases b - a,
{
    if a < b {
        lemma_none_shown(folds, a, b - 1);
        assert(buffer::hidden(folds, b));
    }
}

/// `j` and `k` with a count pass that many visible rows, as far as there are, and
/// end on a visible one.
pub proof fn law_vertical_steps_count_visible_rows(
    folds: Seq<(int, int, bool)>,
    rows: int,
    row: int,
    n: nat,
)
    requires
        0 <= row < rows,
    ensures
        ({
            let to = motions::visible_steps(folds, rows, row, n, true);
            &&& row <= to < rows
            &&& to == row || !buffer::hidden(folds, to)
            &&& shown_between(folds, row, to) <= n
            &&& shown_between(folds, row, to) == n || shown_between(folds, to, rows - 1) == 0
        }),
        ({
            let to = motions::visible_steps(folds, rows, row, n, false);
            &&& 0 <= to <= row
            &&& to == row || !buffer::hidden(folds, to)
            &&& shown_between(folds, to - 1, row - 1) <= n
            &&& shown_between(folds, to - 1, row - 1) == n || shown_between(folds, -1, to - 1)
                == 0
        }),
    decreases n,
{
    folds::law_next_visible(folds, rows, row);
    folds::law_prev_visible(folds, row);
    if n == 0 {
        return;
    }
    match buffer::next_visible(folds, rows, row) {
        Some(r) => {
            law_vertical_steps_count_visible_rows(folds, rows, r, (n - 1) as nat);
            let to = motions::visible_steps(folds, rows, row, n, true);
            lemma_shown_between(folds, row, r, to);
            lemma_none_shown(folds, row, r - 1);
        },
        None => {
            lemma_none_shown(folds, row, rows - 1);
        },
    }
    match buffer::prev_visible(folds, row) {
        Some(r) => {
            law_vertical_steps_count_visible_rows(folds, rows, r, (n - 1) as nat);
            let to = motions::visible_steps(folds, rows, row, n, false);
            lemma_shown_between(folds, to - 1, r - 1, row - 1);
            lemma_none_shown(folds, r, row - 1);
            lemma_shown_between(folds, r - 1, r, row - 1);
            assert(shown_between(folds, r - 1, r - 1) == 0);
        },
        None => {
            lemma_none_shown(folds, -1, row - 1);
        },
    }
}

/// A cursor that is sent to a place of a buffer is there afterwards, as far as
/// places count in 32 bits; sent past the end of a row it stays at the end, and
/// sent below the last row it stays on the last. The text is the same.
pub proof fn law_cursor_goes_where_it_is_sent(
    b: hjkl_buffer::Buffer,
    a: hjkl_buffer::Buffer,
    to: (int, int),
)
    requires
        motions::sent(b, a, to),
        0 <= to.0 <= u32::MAX,
        0 <= to.1 <= u32::MAX,
        0 < rope::buffer_lines(b).len() <= u32::MAX,
    ensures
        a.rows() == b.rows(),
        to.0 < rope::buffer_lines(b).len() ==> a.at().line == to.0,
        to.0 >= rope::buffer_lines(b).len() ==> a.at().line == rope::buffer_lines(b).len() - 1,
        to.1 <= rope::buffer_lines(b)[a.at().line as int].len() ==> a.at().col == to.1,
        to.1 > rope::buffer_lines(b)[a.at().line as int].len() ==> a.at().col
            == rope::buffer_lines(b)[a.at().line as int].len(),
{
}

/// `gg`, `G`, `H`, `M` and `L` end on the row they were sent to, on a character
/// that is no blank with blanks only before it, or in column 0 of a row of
/// blanks.
pub proof fn law_row_motion_lands_on_text(
    b: hjkl_buffer::Buffer,
    a: hjkl_buffer::Buffer,
    row: int,
)
    requires
        motions::sent_to_row(b, a, row),
        0 <= row < rope::buffer_lines(b).len() <= u32::MAX,
        rope::buffer_lines(b)[row].len() <= u32::MAX,
    ensures
        a.at().line == row,
        ({
            let line = rope::buffer_lines(b)[row];
            let col = a.at().col as int;
            if exists|i: int| 0 <= i < line.len() && !text::white_space(#[trigger] line[i]) {
                &&& col < line.len()
                &&& !text::white_space(line[col])
                &&& forall|i: int| 0 <= i < col ==> text::white_space(#[trigger] line[i])
            } else {
                col == 0
            }
        }),
{
    let lines = rope::buffer_lines(b);
    assert(b.rows() =~= lines);
    law_first_and_last_non_blank(lines[row]);
}

/// `^` goes to the first character that is no blank and `g_` to the last one;
/// both go to column 0 of a row of blanks.
pub proof fn law_first_and_last_non_blank(line: Seq<char>)
    ensures
        ({
            let first = motions::first_non_blank(line);
            let last = motions::last_non_blank(line);
            if exists|i: int| 0 <= i < line.len() && !text::white_space(#[trigger] line[i]) {
                &&& 0 <= first <= last < line.len()
                &&& !text::white_space(line[first])
                &&& !text::white_space(line[last])
                &&& forall|i: int| 0 <= i < first ==> text::white_space(#[trigger] line[i])
                &&& forall|i: int| last < i < line.len() ==> text::white_space(#[trigger] line[i])
            } else {
                first == 0 && last == 0
            }
        }),
{
    let p = |c: char| !text::white_space(c);
    buffer::lemma_first_where_range(line, p);
    let i = buffer::first_where(line, p);
    if i < line.len() {
        assert(p(line[i]));
    }
    assert forall|k: int| 0 <= k < i implies text::white_space(#[trigger] line[k]) by {
        assert(!p(line[k]));
    }
    lemma_last_non_blank(line);
}

proof fn lemma_last_non_blank(line: Seq<char>)
    ensures
        ({
            let last = motions::last_non_blank(line);
            if exists|i: int| 0 <= i < line.len() && !text::white_space(#[trigger] line[i]) {
                &&& 0 <= last < line.len()
                &&& !text::white_space(line[last])
                &&& forall|i: int| last < i < line.len() ==> text::white_space(#[trigger] line[i])
            } else {
                last == 0
            }
        }),
    decreases line.len(),
{
    if line.len() > 0 && text::white_space(line.last()) {
        let rest = line.drop_last();
        lemma_last_non_blank(rest);
        assert(forall|i: int| 0 <= i < rest.len() ==> #[trigger] rest[i] == line[i]);
        if exists|i: int| 0 <= i < line.len() && !text::white_space(#[trigger] line[i]) {
            let i = choose|i: int| 0 <= i < line.len() && !text::white_space(#[trigger] line[i]);
            assert(!text::white_space(rest[i]));
            let last = motions::last_non_blank(line);
            assert forall|k: int| last < k < line.len() implies text::white_space(
                #[trigger] line[k],
            ) by {
                if k < rest.len() {
                    assert(text::white_space(rest[k]));
                }
            }
        } else {
            assert forall|k: int| 0 <= k < rest.len() implies text::white_space(
                #[trigger] rest[k],
            ) by {
                assert(text::white_space(line[k]));
            }
        }
    } else if line.len() > 0 {
        assert(!text::white_space(line[line.len() - 1]));
    }
}

/// `f` and `t` find the nearest such character behind the cursor, `F` and `T`
/// the nearest before it, and they find one exactly where there is one. `f` and
/// `F` land on it, `t` and `T` land beside it, on the side of the cursor.
pub proof fn law_find_char_finds_the_nearest(
    line: Seq<char>,
    col: int,
    ch: char,
    forward: bool,
    till: bool,
)
    requires
        0 <= col <= line.len(),
    ensures
        match motions::find_target(line, col, ch, forward, till) {
            Some(to) => {
                let at = if !till {
                    to
                } else if forward {
                    to + 1
                } else {
                    to - 1
                };
                &&& 0 <= at < line.len()
                &&& line[at] == ch
                &&& forward ==> col < at && forall|k: int|
                    col < k < at ==> #[trigger] line[k] != ch
                &&& !forward ==> at < col && forall|k: int|
                    at < k < col ==> #[trigger] line[k] != ch
            },
            None => forall|k: int|
                0 <= k < line.len() && (if forward {
                    col < k
                } else {
                    k < col
                }) ==> #[trigger] line[k] != ch,
        },
{
    lemma_char_after(line, col, ch);
    lemma_char_before(line, col, ch);
}

proof fn lemma_char_after(line: Seq<char>, col: int, ch: char)
    requires
        0 <= col,
    ensures
        match motions::char_after(line, col, ch) {
            Some(at) => {
                &&& col < at < line.len()
                &&& line[at] == ch
                &&& forall|k: int| col < k < at ==> #[trigger] line[k] != ch
            },
            None => forall|k: int| col < k < line.len() ==> #[trigger] line[k] != ch,
        },
    decreases line.len() - col,
{
    if col + 1 < line.len() && line[col + 1] != ch {
        lemma_char_after(line, col + 1, ch);
    }
}

proof fn lemma_char_before(line: Seq<char>, col: int, ch: char)
    requires
        0 <= col <= line.len(),
    ensures
        match motions::char_before(line, col, ch) {
            Some(at) => {
                &&& 0 <= at < col
                &&& line[at] == ch
                &&& forall|k: int| at < k < col ==> #[trigger] line[k] != ch
            },
            None => forall|k: int| 0 <= k < col ==> #[trigger] line[k] != ch,
        },
    decreases col,
{
    if col > 0 && line[col - 1] != ch {
        lemma_char_before(line, col - 1, ch);
    }
}

/// A count of 0 counts once, and every other count as often as it says.
pub proof fn law_counts(count: usize)
    ensures
        motions::at_least_once(count) >= 1,
        count >= 1 ==> motions::at_least_once(count) == count,
        count == 0 ==> motions::at_least_once(count) == 1,
{
}

/// The last column of a line holds its last character, and the last row of a
/// text is the one that no other follows.
pub proof fn law_last_column_and_row(line: Seq<char>, rows: Seq<Seq<char>>)
    ensures
        line.len() > 0 ==> motions::last_col(line) + 1 == line.len(),
        line.len() == 0 ==> motions::last_col(line) == 0,
        rows.len() > 0 ==> motions::last_row(rows) + 1 == rows.len(),
        rows.len() == 0 ==> motions::last_row(rows) == 0,
{
}

/// A vertical motion aims at the remembered column, or at the cursor's where
/// none is remembered. It ends there where the row reaches that far, and else on
/// the last character of the row.
pub proof fn law_vertical_motion_keeps_column<B: Cursor, F: crate::folds::FoldProvider>(
    b: B,
    folds: F,
    count: nat,
    sticky: Option<usize>,
    down: bool,
)
    ensures
        ({
            let to = motions::vertical_target(b, folds, count as int, sticky, down);
            let line = motions::line_at(b.rows(), to.0);
            let want = match sticky {
                Some(c) => c as int,
                None => b.at().col as int,
            };
            &&& to.0 == motions::visible_steps(
                folds.fold_list(),
                folds.row_limit(b.rows().len() as int),
                b.at().line as int,
                count,
                down,
            )
            &&& want < line.len() ==> to.1 == want
            &&& want >= line.len() && line.len() > 0 ==> to.1 + 1 == line.len()
            &&& line.len() == 0 ==> to.1 == 0
        }),
{
}

/// The last row that a viewport shows lies in the text and on its screen, and it
/// is the last row of the text or of the screen.
pub proof fn law_visible_bottom(rows: Seq<Seq<char>>, v: Viewport)
    requires
        v.top_row < rows.len(),
        v.height > 0,
    ensures
        ({
            let r = motions::visible_bottom(rows, v);
            &&& v.top_row <= r < rows.len()
            &&& r < v.top_row + v.height
            &&& r + 1 == rows.len() || r + 1 == v.top_row + v.height
        }),
{
}

/// From an empty row `{` and `}` first leave the empty rows around it: all empty
/// rows that they pass lie together at the start of the way, and where they end
/// on another empty row there is a row with text in between.
pub proof fn law_paragraph_motion_leaves_empty_rows(rows: Seq<Seq<char>>, row: int)
    requires
        0 <= row < rows.len(),
        rows[row].len() == 0,
    ensures
        row > 0 ==> {
            let up = motions::paragraph_above(rows, row);
            &&& 0 <= up < row
            &&& forall|i: int, j: int|
                up < i < j < row && (#[trigger] rows[i]).len() == 0 ==> (#[trigger] rows[j]).len()
                    == 0
            &&& up > 0 ==> rows[up].len() == 0 && exists|k: int|
                up < k < row && (#[trigger] rows[k]).len() > 0
        },
        row < rows.len() - 1 ==> {
            let down = motions::paragraph_below(rows, row);
            &&& row < down < rows.len()
            &&& forall|i: int, j: int|
                row < i < j < down && (#[trigger] rows[j]).len() == 0 ==> (#[trigger] rows[i]).len()
                    == 0
            &&& down < rows.len() - 1 ==> rows[down].len() == 0 && exists|k: int|
                row < k < down && (#[trigger] rows[k]).len() > 0
        },
{
    if row > 0 {
        let m = motions::up_while(rows, row - 1, true);
        let up = motions::up_while(rows, m, false);
        lemma_up(rows, row - 1, true);
        lemma_up(rows, m, false);
        if up > 0 {
            assert(rows[m].len() > 0);
            assert(up < m);
        }
    }
    if row < rows.len() - 1 {
        let m = motions::down_while(rows, row + 1, true);
        let down = motions::down_while(rows, m, false);
        lemma_down(rows, row + 1, true);
        lemma_down(rows, m, false);
        if down < rows.len() - 1 {
            assert(rows[m].len() > 0);
            assert(m < down);
        }
    }
}

proof fn lemma_up(rows: Seq<Seq<char>>, r: int, empty: bool)
    requires
        0 <= r < rows.len(),
    ensures
        ({
            let t = motions::up_while(rows, r, empty);
            &&& 0 <= t <= r
            &&& t > 0 ==> (rows[t].len() == 0) != empty
            &&& forall|k: int| t < k <= r ==> ((#[trigger] rows[k]).len() == 0) == empty
        }),
    decreases r,
{
    if r > 0 && (rows[r].len() == 0) == empty {
        lemma_up(rows, r - 1, empty);
    }
}

proof fn lemma_down(rows: Seq<Seq<char>>, r: int, empty: bool)
    requires
        0 <= r < rows.len(),
    ensures
        ({
            let t = motions::down_while(rows, r, empty);
            &&& r <= t < rows.len()
            &&& t < rows.len() - 1 ==> (rows[t].len() == 0) != empty
            &&& forall|k: int| r <= k < t ==> ((#[trigger] rows[k]).len() == 0) == empty
        }),
    decreases rows.len() - r,
{
    if r < rows.len() - 1 && (rows[r].len() == 0) == empty {
        lemma_down(rows, r + 1, empty);
    }
}

/// A paragraph motion with a count is that many single ones in turn.
pub proof fn law_paragraph_motions_add_up(rows: Seq<Seq<char>>, row: int, m: nat, n: nat)
    ensures
        motions::paragraph_up(rows, motions::paragraph_up(rows, row, m), n)
            == motions::paragraph_up(rows, row, m + n),
        motions::paragraph_down(rows, motions::paragraph_down(rows, row, m), n)
            == motions::paragraph_down(rows, row, m + n),
        row > 0 ==> motions::paragraph_up(rows, row, 1) == motions::paragraph_above(rows, row),
        row < rows.len() - 1 ==> motions::paragraph_down(rows, row, 1) == motions::paragraph_below(
            rows,
            row,
        ),
    decreases m,
{
    reveal_with_fuel(motions::paragraph_up, 2);
    reveal_with_fuel(motions::paragraph_down, 2);
    if m > 0 {
        law_paragraph_motions_add_up(
            rows,
            motions::paragraph_above(rows, row),
            (m - 1) as nat,
            n,
        );
        law_paragraph_motions_add_up(
            rows,
            motions::paragraph_below(rows, row),
            (m - 1) as nat,
            n,
        );
    }
}

/// A motion with a count is that many single ones in turn: the first goes where
/// the motion leads from the start, and the others go on from there.
pub proof fn law_repeated_motions_add_up<B: Cursor>(
    b: B,
    at: crate::types::Pos,
    m: nat,
    n: nat,
    f: spec_fn((int, int)) -> Option<(int, int)>,
)
    ensures
        motions::repeated(b, motions::repeated(b, at, m, f), n, f) == motions::repeated(
            b,
            at,
            m + n,
            f,
        ),
        motions::repeated(b, at, 1, f) == match f(buffer_impl::as_place(at)) {
            Some(p) => b.placed(buffer_impl::as_pos(p)),
            None => at,
        },
    decreases m,
{
    reveal_with_fuel(motions::repeated, 2);
    if m > 0 {
        match f(buffer_impl::as_place(at)) {
            Some(p) => {
                law_repeated_motions_add_up(
                    b,
                    b.placed(buffer_impl::as_pos(p)),
                    (m - 1) as nat,
                    n,
                    f,
                );
            },
            None => {},
        }
    }
}

} // verus!
