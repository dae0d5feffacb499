//! Styled spans: the style table and the byte ranges that refer to it.
use hjkl_buffer::Buffer as RopeBuffer;
use vstd::prelude::*;

use crate::editor::{Editor, Span};
use crate::motions;
use crate::style;
use crate::style::{engine_style_to_term, term_style_to_engine, TermStyle};
use crate::surface::Query;
use crate::text;
use crate::types::{Host, Style};

verus! {

/// The first index at which a style stands in a table, or the length of the
/// table.
pub open spec fn style_index(table: Seq<TermStyle>, s: TermStyle) -> int
    decreases table.len(),
{
    if table.len() == 0 {
        0
    } else {
        let i = style_index(table.drop_last(), s);
        if i < table.len() - 1 || table.last() == s {
            i
        } else {
            table.len() as int
        }
    }
}

/// The table with a style added where it is not in it yet.
pub open spec fn table_with(table: Seq<TermStyle>, s: TermStyle) -> Seq<TermStyle> {
    if style_index(table, s) < table.len() {
        table
    } else {
        table.push(s)
    }
}

/// The part of a span that lies on a line of `len` bytes.
pub open spec fn clamped(s: (usize, usize, TermStyle), len: int) -> (usize, usize, TermStyle) {
    (s.0, text::min(s.1 as int, len) as usize, s.2)
}

/// The spans of a row, cut off at the end of its line; what is empty then is
/// left out.
pub open spec fn kept_spans(spans: Seq<(usize, usize, TermStyle)>, len: int) -> Seq<
    (usize, usize, TermStyle),
>
    decreases spans.len(),
{
    if spans.len() == 0 {
        spans
    } else {
        let head = kept_spans(spans.drop_last(), len);
        let s = clamped(spans.last(), len);
        if s.1 <= s.0 {
            head
        } else {
            head.push(s)
        }
    }
}

/// The table after the styles of some spans were added in turn.
pub open spec fn table_after(table: Seq<TermStyle>, spans: Seq<(usize, usize, TermStyle)>) -> Seq<
    TermStyle,
>
    decreases spans.len(),
{
    if spans.len() == 0 {
        table
    } else {
        table_with(table_after(table, spans.drop_last()), spans.last().2)
    }
}

/// Some spans with the indices of their styles, each as it stands in the table
/// when its turn comes.
pub open spec fn numbered(table: Seq<TermStyle>, spans: Seq<(usize, usize, TermStyle)>) -> Seq<
    Span,
>
    decreases spans.len(),
{
    if spans.len() == 0 {
        Seq::<Span>::empty()
    } else {
        let s = spans.last();
        numbered(table, spans.drop_last()).push(
            Span {
                start_byte: s.0,
                end_byte: s.1,
                style: style_index(table_after(table, spans.drop_last()), s.2) as u32,
            },
        )
    }
}

/// The kept spans of every row of a text.
pub open spec fn kept_rows(
    rows: Seq<Seq<char>>,
    spans: Seq<Seq<(usize, usize, TermStyle)>>,
) -> Seq<Seq<(usize, usize, TermStyle)>> {
    Seq::new(
        spans.len(),
        |i: int| kept_spans(spans[i], text::byte_len(motions::line_at(rows, i)) as int),
    )
}

/// The table after the spans of some rows were added.
pub open spec fn table_after_rows(
    table: Seq<TermStyle>,
    kept: Seq<Seq<(usize, usize, TermStyle)>>,
) -> Seq<TermStyle>
    decreases kept.len(),
{
    if kept.len() == 0 {
        table
    } else {
        table_after(table_after_rows(table, kept.drop_last()), kept.last())
    }
}

/// The spans of some rows with the indices of their styles.
pub open spec fn numbered_rows(
    table: Seq<TermStyle>,
    kept: Seq<Seq<(usize, usize, TermStyle)>>,
) -> Seq<Seq<Span>>
    decreases kept.len(),
{
    if kept.len() == 0 {
        Seq::<Seq<Span>>::empty()
    } else {
        numbered_rows(table, kept.drop_last()).push(
            numbered(table_after_rows(table, kept.drop_last()), kept.last()),
        )
    }
}

/// The contents of a list of lists.
pub open spec fn inner<T>(v: Seq<Vec<T>>) -> Seq<Seq<T>> {
    Seq::new(v.len(), |i: int| v[i]@)
}

/// Spans with terminal styles in place of engine styles.
pub open spec fn as_term_spans(spans: Seq<(usize, usize, Style)>) -> Seq<
    (usize, usize, TermStyle),
> {
    Seq::new(spans.len(), |i: int| (spans[i].0, spans[i].1, style::as_term(spans[i].2)))
}

/// Rows of spans with terminal styles in place of engine styles.
pub open spec fn as_term_rows(spans: Seq<Vec<(usize, usize, Style)>>) -> Seq<
    Seq<(usize, usize, TermStyle)>,
> {
    Seq::new(spans.len(), |i: int| as_term_spans(spans[i]@))
}

/// What installing spans leaves in the editor: the table has grown, and the
/// spans of every row refer to it.
pub open spec fn spans_installed<H: Host>(
    b: Editor<RopeBuffer, H>,
    a: Editor<RopeBuffer, H>,
    spans: Seq<Seq<(usize, usize, TermStyle)>>,
) -> bool {
    let kept = kept_rows(b.buffer.rows(), spans);
    &&& a.style_table@ == table_after_rows(b.style_table@, kept)
    &&& inner(a.buffer_spans@) == numbered_rows(b.style_table@, kept)
    &&& a == (Editor {
        style_table: a.style_table,
        buffer_spans: a.buffer_spans,
        styled_spans: a.styled_spans,
        ..b
    })
}

fn keep_spans(spans: &Vec<(usize, usize, TermStyle)>, len: usize) -> (out: Vec<
    (usize, usize, TermStyle),
>)
    ensures
        out@ == kept_spans(spans@, len as int),
{
    let mut out: Vec<(usize, usize, TermStyle)> = Vec::new();
    let mut i: usize = 0;
    while i < spans.len()
        invariant
            i <= spans.len(),
            out@ == kept_spans(spans@.take(i as int), len as int),
        decreases spans.len() - i,
    {
        let s = spans[i];
        assert(spans@.take(i + 1).drop_last() =~= spans@.take(i as int));
        let end: usize = if s.1 < len {
            s.1
        } else {
            len
        };
        if end > s.0 {
            out.push((s.0, end, s.2));
        }
        i = i + 1;
    }
    assert(spans@.take(i as int) =~= spans@);
    out
}

fn to_term_spans(spans: &Vec<(usize, usize, Style)>) -> (out: Vec<(usize, usize, TermStyle)>)
    ensures
        out@ == as_term_spans(spans@),
{
    let mut out: Vec<(usize, usize, TermStyle)> = Vec::new();
    let mut i: usize = 0;
    while i < spans.len()
        invariant
            i <= spans.len(),
            out@ == as_term_spans(spans@).take(i as int),
        decreases spans.len() - i,
    {
        let s = spans[i];
        out.push((s.0, s.1, engine_style_to_term(s.2)));
        i = i + 1;
        assert(as_term_spans(spans@).take(i as int) =~= as_term_spans(spans@).take(i - 1).push(
            as_term_spans(spans@)[i - 1],
        ));
    }
    assert(as_term_spans(spans@).take(i as int) =~= as_term_spans(spans@));
    out
}

impl<H: Host> Editor<RopeBuffer, H> {
    /// The index of a terminal style in the style table; the style is added
    /// where it is not there yet.
    pub fn intern_ratatui_style(&mut self, s: TermStyle) -> (id: u32)
        ensures
            id == style_index(old(self).style_table@, s) as u32,
            final(self).style_table@ == table_with(old(self).style_table@, s),
            *final(self) == (Editor { style_table: final(self).style_table, ..*old(self) }),
    {
        let ghost table = self.style_table@;
        let mut i: usize = 0;
        let n: usize = self.style_table.len();
        while i < n
            invariant
                n == self.style_table@.len(),
                self.style_table@ == table,
                i <= n,
                style_index(table.take(i as int), s) == i,
                *self == *old(self),
            decreases n - i,
        {
            assert(table.take(i + 1).drop_last() =~= table.take(i as int));
            if self.style_table[i] == s {
                proof {
                    lemma_index_of_prefix(table, s, i as int, i + 1);
                }
                return i as u32;
            }
            i = i + 1;
        }
        assert(table.take(n as int) =~= table);
        self.style_table.push(s);
        n as u32
    }

    /// The index of an engine style in the style table; the style is added
    /// where it is not there yet.
    pub fn intern_style(&mut self, s: Style) -> (id: u32)
        ensures
            id == style_index(old(self).style_table@, style::as_term(s)) as u32,
            final(self).style_table@ == table_with(old(self).style_table@, style::as_term(s)),
            *final(self) == (Editor { style_table: final(self).style_table, ..*old(self) }),
    {
        self.intern_ratatui_style(engine_style_to_term(s))
    }

    /// The engine style at an index of the style table.
    pub fn engine_style_at(&self, id: u32) -> (r: Option<Style>)
        ensures
            r == if id < self.style_table@.len() {
                Some(style::as_engine(self.style_table@[id as int]))
            } else {
                None
            },
    {
        if (id as usize) < self.style_table.len() {
            Some(term_style_to_engine(self.style_table[id as usize]))
        } else {
            None
        }
    }

    /// The style table.
    pub fn style_table(&self) -> (t: &Vec<TermStyle>)
        ensures
            *t == self.style_table,
    {
        &self.style_table
    }

    /// The spans of every row.
    pub fn buffer_spans(&self) -> (v: &Vec<Vec<Span>>)
        ensures
            *v == self.buffer_spans,
    {
        &self.buffer_spans
    }

    fn number_spans(&mut self, kept: &Vec<(usize, usize, TermStyle)>) -> (out: Vec<Span>)
        ensures
            out@ == numbered(old(self).style_table@, kept@),
            final(self).style_table@ == table_after(old(self).style_table@, kept@),
            *final(self) == (Editor { style_table: final(self).style_table, ..*old(self) }),
    {
        let mut out: Vec<Span> = Vec::new();
        let mut i: usize = 0;
        let ghost table = self.style_table@;
        while i < kept.len()
            invariant
                i <= kept.len(),
                out@ == numbered(table, kept@.take(i as int)),
                self.style_table@ == table_after(table, kept@.take(i as int)),
                *self == (Editor { style_table: self.style_table, ..*old(self) }),
            decreases kept.len() - i,
        {
            assert(kept@.take(i + 1).drop_last() =~= kept@.take(i as int));
            let s = kept[i];
            let id: u32 = self.intern_ratatui_style(s.2);
            out.push(Span { start_byte: s.0, end_byte: s.1, style: id });
            i = i + 1;
        }
        assert(kept@.take(i as int) =~= kept@);
        out
    }

    /// Numbers the spans of every row and keeps them; the spans that are kept
    /// come back.
    fn install_rows(&mut self, spans: &Vec<Vec<(usize, usize, TermStyle)>>) -> (kept: Vec<
        Vec<(usize, usize, TermStyle)>,
    >)
        ensures
            spans_installed(*old(self), *final(self), inner(spans@)),
            inner(kept@) == kept_rows(old(self).buffer.rows(), inner(spans@)),
            final(self).styled_spans == old(self).styled_spans,
    {
        let ghost rows = self.buffer.rows();
        let ghost table = self.style_table@;
        let ghost goal = kept_rows(rows, inner(spans@));
        let mut kept: Vec<Vec<(usize, usize, TermStyle)>> = Vec::new();
        let mut by_row: Vec<Vec<Span>> = Vec::new();
        let mut i: usize = 0;
        while i < spans.len()
            invariant
                i <= spans.len(),
                rows == self.buffer.rows(),
                goal == kept_rows(rows, inner(spans@)),
                inner(kept@) == goal.take(i as int),
                inner(by_row@) == numbered_rows(table, goal.take(i as int)),
                self.style_table@ == table_after_rows(table, goal.take(i as int)),
                *self == (Editor { style_table: self.style_table, ..*old(self) }),
            decreases spans.len() - i,
        {
            let len: usize = text::byte_length(motions::read_line(&self.buffer, i));
            let row = keep_spans(&spans[i], len);
            let ghost before = by_row@;
            let ghost kept_before = kept@;
            let numbers = self.number_spans(&row);
            proof {
                assert(goal[i as int] == row@);
                assert(goal.take(i + 1).drop_last() =~= goal.take(i as int));
            }
            by_row.push(numbers);
            kept.push(row);
            i = i + 1;
            assert(inner(by_row@) =~= inner(before).push(by_row@.last()@));
            assert(inner(kept@) =~= inner(kept_before).push(kept@.last()@));
            assert(goal.take(i as int) =~= goal.take(i - 1).push(goal[i - 1]));
        }
        assert(goal.take(i as int) =~= goal);
        self.buffer_spans = by_row;
        kept
    }

    /// Installs spans with terminal styles, one list per row.
    pub fn install_ratatui_syntax_spans(&mut self, spans: Vec<Vec<(usize, usize, TermStyle)>>)
        ensures
            spans_installed(*old(self), *final(self), inner(spans@)),
            final(self).styled_spans == spans,
    {
        self.install_rows(&spans);
        self.styled_spans = spans;
    }

    /// Installs spans with engine styles, one list per row.
    pub fn install_syntax_spans(&mut self, spans: Vec<Vec<(usize, usize, Style)>>)
        ensures
            spans_installed(*old(self), *final(self), as_term_rows(spans@)),
            inner(final(self).styled_spans@) == kept_rows(
                old(self).buffer.rows(),
                as_term_rows(spans@),
            ),
    {
        let mut rows: Vec<Vec<(usize, usize, TermStyle)>> = Vec::new();
        let mut i: usize = 0;
        let ghost goal = as_term_rows(spans@);
        while i < spans.len()
            invariant
                i <= spans.len(),
                goal == as_term_rows(spans@),
                inner(rows@) == goal.take(i as int),
            decreases spans.len() - i,
        {
            let ghost before = rows@;
            rows.push(to_term_spans(&spans[i]));
            i = i + 1;
            assert(inner(rows@) =~= inner(before).push(rows@[i - 1]@));
            assert(goal.take(i as int) =~= goal.take(i - 1).push(goal[i - 1]));
        }
        assert(goal.take(i as int) =~= goal);
        self.styled_spans = self.install_rows(&rows);
    }
}

/// A style that stands early in a table has the same index in all of it.
proof fn lemma_index_of_prefix(table: Seq<TermStyle>, s: TermStyle, i: int, n: int)
    requires
        0 <= i < n <= table.len(),
        style_index(table.take(n), s) == i,
    ensures
        style_index(table, s) == i,
    decreases table.len() - n,
{
    if n < table.len() {
        assert(table.take(n + 1).drop_last() =~= table.take(n));
        lemma_index_of_prefix(table, s, i, n + 1);
    } else {
        assert(table.take(n) =~= table);
    }
}

/// The index of a style is an index at which it stands, or the length.
proof fn lemma_index_in_table(table: Seq<TermStyle>, s: TermStyle)
    ensures
        0 <= style_index(table, s) <= table.len(),
        style_index(table, s) < table.len() ==> table[style_index(table, s)] == s,
    decreases table.len(),
{
    if table.len() > 0 {
        lemma_index_in_table(table.drop_last(), s);
    }
}

/// An interned style is found again at its index, interning it once more adds
/// nothing, and what was in the table before keeps its index.
pub proof fn law_interned_style_is_found(table: Seq<TermStyle>, s: TermStyle)
    ensures
        ({
            let id = style_index(table, s);
            let t = table_with(table, s);
            &&& 0 <= id < t.len()
            &&& t[id] == s
            &&& style_index(t, s) == id
            &&& table_with(t, s) == t
            &&& t.take(table.len() as int) == table
        }),
{
    lemma_index_in_table(table, s);
    assert(table.push(s).drop_last() =~= table);
    assert(table.push(s).take(table.len() as int) =~= table);
    assert(table.take(table.len() as int) =~= table);
}

/// The kept spans of a row are not empty and lie on its line.
pub proof fn law_kept_spans_lie_on_the_line(
    spans: Seq<(usize, usize, TermStyle)>,
    len: int,
    i: int,
)
    requires
        0 <= len,
        0 <= i < kept_spans(spans, len).len(),
    ensures
        ({
            let s = kept_spans(spans, len)[i];
            s.0 < s.1 <= len
        }),
    decreases spans.len(),
{
    if spans.len() > 0 && i < kept_spans(spans.drop_last(), len).len() {
        law_kept_spans_lie_on_the_line(spans.drop_last(), len, i);
    }
}

/// A numbered span covers the bytes of the span it stands for, and its number leads
/// to the style of that span in the table, whatever is added to the table later.
pub proof fn law_numbers_lead_to_styles(
    table: Seq<TermStyle>,
    spans: Seq<(usize, usize, TermStyle)>,
    i: int,
)
    requires
        0 <= i < spans.len(),
        table.len() + spans.len() <= u32::MAX,
    ensures
        numbered(table, spans).len() == spans.len(),
        numbered(table, spans)[i].start_byte == spans[i].0,
        numbered(table, spans)[i].end_byte == spans[i].1,
        numbered(table, spans)[i].style < table_after(table, spans).len(),
        table_after(table, spans)[numbered(table, spans)[i].style as int] == spans[i].2,
    decreases spans.len(),
{
    let before = spans.drop_last();
    lemma_numbered_len(table, before);
    lemma_table_grows(table, before);
    let t = table_after(table, before);
    let s = spans.last().2;
    lemma_index_in_table(t, s);
    if i < before.len() {
        law_numbers_lead_to_styles(table, before, i);
    }
}

proof fn lemma_numbered_len(table: Seq<TermStyle>, spans: Seq<(usize, usize, TermStyle)>)
    ensures
        numbered(table, spans).len() == spans.len(),
    decreases spans.len(),
{
    if spans.len() > 0 {
        lemma_numbered_len(table, spans.drop_last());
    }
}

proof fn lemma_table_grows(table: Seq<TermStyle>, spans: Seq<(usize, usize, TermStyle)>)
    ensures
        table.len() <= table_after(table, spans).len() <= table.len() + spans.len(),
    decreases spans.len(),
{
    if spans.len() > 0 {
        lemma_table_grows(table, spans.drop_last());
    }
}

/// A style that is in the table has the number of its first place there.
pub proof fn law_style_has_its_first_place(table: Seq<TermStyle>, s: TermStyle, i: int)
    requires
        0 <= i < table.len(),
        table[i] == s,
        forall|k: int| 0 <= k < i ==> #[trigger] table[k] != s,
    ensures
        style_index(table, s) == i,
        table_with(table, s) == table,
    decreases table.len(),
{
    lemma_index_in_table(table.drop_last(), s);
    if i < table.len() - 1 {
        assert forall|k: int| 0 <= k < i implies #[trigger] table.drop_last()[k] != s by {
            assert(table[k] != s);
        }
        law_style_has_its_first_place(table.drop_last(), s, i);
    } else {
        let k = style_index(table.drop_last(), s);
        if k < table.len() - 1 {
            assert(table[k] == s);
        }
    }
}

/// Every span that covers a byte of the line is kept, with its style, up to the end
/// of the line, and no other span is.
pub proof fn law_spans_on_the_line_are_kept(
    spans: Seq<(usize, usize, TermStyle)>,
    len: usize,
    s: (usize, usize, TermStyle),
)
    ensures
        kept_spans(spans, len as int).contains(s) <==> exists|i: int|
            0 <= i < spans.len() && (#[trigger] spans[i]).0 < spans[i].1 && spans[i].0 < len && s.0
                == spans[i].0 && s.2 == spans[i].2 && s.1 == (if spans[i].1 < len {
                spans[i].1
            } else {
                len
            }),
    decreases spans.len(),
{
    if spans.len() > 0 {
        let before = spans.drop_last();
        let head = kept_spans(before, len as int);
        let all = kept_spans(spans, len as int);
        law_spans_on_the_line_are_kept(before, len, s);
        if all.contains(s) {
            let k = all.index_of(s);
            if k < head.len() {
                assert(head[k] == s);
                let i = choose|i: int|
                    0 <= i < before.len() && (#[trigger] before[i]).0 < before[i].1 && before[i].0
                        < len && s.0 == before[i].0 && s.2 == before[i].2 && s.1 == (if before[i].1
                        < len {
                        before[i].1
                    } else {
                        len
                    });
                assert(spans[i] == before[i]);
            } else {
                assert(spans[spans.len() - 1] == spans.last());
            }
        }
        if exists|i: int|
            0 <= i < spans.len() && (#[trigger] spans[i]).0 < spans[i].1 && spans[i].0 < len && s.0
                == spans[i].0 && s.2 == spans[i].2 && s.1 == (if spans[i].1 < len {
                spans[i].1
            } else {
                len
            }) {
            let i = choose|i: int|
                0 <= i < spans.len() && (#[trigger] spans[i]).0 < spans[i].1 && spans[i].0 < len
                    && s.0 == spans[i].0 && s.2 == spans[i].2 && s.1 == (if spans[i].1 < len {
                    spans[i].1
                } else {
                    len
                });
            if i < before.len() {
                assert(before[i] == spans[i]);
                let k = head.index_of(s);
                assert(all[k] == s);
            } else {
                assert(all.last() == s);
                assert(all[all.len() - 1] == s);
            }
        }
    }
}

} // verus!
