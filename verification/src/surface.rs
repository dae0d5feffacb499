//! The trait surface between the engine and its text store.
//!
//! A store shows its text as rows of characters and keeps a cursor. Motions,
//! viewport arithmetic and search are written against these traits alone, so
//! a host may bring a store of its own.
use std::borrow::Cow;
use std::ops::Range;

use vstd::prelude::*;

use crate::types::Pos;

verus! {

/// Read access to the text.
pub trait Query: Send {
    /// The rows of the store, as far as a 32-bit row number reaches.
    open spec fn rows(&self) -> Seq<Seq<char>> {
        arbitrary()
    }

    /// How many bytes the text takes, line breaks included.
    open spec fn size(&self) -> nat {
        arbitrary()
    }

    /// The text of a range.
    open spec fn text_in(&self, range: Range<Pos>) -> Seq<char> {
        arbitrary()
    }

    /// The number of rows.
    fn line_count(&self) -> (n: u32)
        ensures
            n == self.rows().len(),
    ;

    /// The text of row `idx`.
    fn line(&self, idx: u32) -> (s: &str)
        requires
            idx < self.rows().len(),
        ensures
            s@ == self.rows()[idx as int],
    ;

    /// The size of the text in bytes, a byte for each line break included.
    fn len_bytes(&self) -> (n: usize)
        ensures
            self.size() <= usize::MAX ==> n == self.size(),
    ;

    /// A counter that moves on with every change. A store that does not count
    /// stays at zero.
    fn dirty_gen(&self) -> (g: u64)
        default_ensures
            g == 0,
    {
        0
    }

    /// The text of a range.
    fn slice(&self, range: Range<Pos>) -> (s: Cow<'_, str>)
        ensures
            s@ == self.text_in(range),
    ;
}

/// The cursor of a store.
pub trait Cursor: Query {
    /// Where the cursor is.
    open spec fn at(&self) -> Pos {
        arbitrary()
    }

    /// Where the cursor ends up when it is sent to `pos`.
    open spec fn placed(&self, pos: Pos) -> Pos {
        arbitrary()
    }

    /// The byte offset of a position.
    open spec fn offset_of(&self, pos: Pos) -> nat {
        arbitrary()
    }

    /// The position of a byte offset.
    open spec fn pos_of(&self, byte: usize) -> Pos {
        arbitrary()
    }

    /// Where the cursor is.
    fn cursor(&self) -> (p: Pos)
        ensures
            p == self.at(),
    ;

    /// Sends the cursor to `pos`. The text stays as it is, and so does the
    /// place where a later call would put the cursor.
    fn set_cursor(&mut self, pos: Pos)
        ensures
            final(self).at() == old(self).placed(pos),
            final(self).rows() == old(self).rows(),
            forall|p: Pos| #[trigger] final(self).placed(p) == old(self).placed(p),
    ;

    /// The byte offset of a position.
    fn byte_offset(&self, pos: Pos) -> (n: usize)
        ensures
            self.offset_of(pos) <= usize::MAX ==> n == self.offset_of(pos),
    ;

    /// The position of a byte offset.
    fn pos_at_byte(&self, byte: usize) -> (p: Pos)
        ensures
            p == self.pos_of(byte),
    ;
}

/// Changes of the text.
pub trait BufferEdit: Query {
    /// The rows after `t` is inserted at `pos`.
    open spec fn rows_inserted(&self, pos: Pos, t: Seq<char>) -> Seq<Seq<char>> {
        arbitrary()
    }

    /// The rows after a range is deleted.
    open spec fn rows_deleted(&self, range: Range<Pos>) -> Seq<Seq<char>> {
        arbitrary()
    }

    /// The rows after `t` takes the place of a range.
    open spec fn rows_replaced(&self, range: Range<Pos>, t: Seq<char>) -> Seq<Seq<char>> {
        arbitrary()
    }

    /// Inserts `t` at `pos`.
    fn insert_at(&mut self, pos: Pos, t: &str)
        ensures
            final(self).rows() == old(self).rows_inserted(pos, t@),
    ;

    /// Deletes a range.
    fn delete_range(&mut self, range: Range<Pos>)
        ensures
            final(self).rows() == old(self).rows_deleted(range),
    ;

    /// Puts `t` in place of a range.
    fn replace_range(&mut self, range: Range<Pos>, t: &str)
        ensures
            final(self).rows() == old(self).rows_replaced(range, t@),
    ;

    /// Puts `t` in place of the whole text. A store that knows no better puts
    /// it in place of the widest range.
    fn replace_all(&mut self, t: &str)
        default_ensures
            final(self).rows() == old(self).rows_replaced(widest_range(), t@),
    {
        self.replace_range(
            Range {
                start: Pos { line: 0, col: 0 },
                end: Pos { line: u32::MAX, col: u32::MAX },
            },
            t,
        );
    }
}

/// The range from the first to the last position there is.
pub open spec fn widest_range() -> Range<Pos> {
    Range {
        start: Pos { line: 0, col: 0 },
        end: Pos { line: u32::MAX, col: u32::MAX },
    }
}

/// Search by regular expression.
pub trait Search: Query {
    /// The first match at or after a position, around the end of the text.
    open spec fn next_match(&self, from: Pos, pat: regex::Regex) -> Option<Range<Pos>> {
        arbitrary()
    }

    /// The last match at or before a position, around the start of the text.
    open spec fn prev_match(&self, from: Pos, pat: regex::Regex) -> Option<Range<Pos>> {
        arbitrary()
    }

    /// The first match at or after a position, around the end of the text.
    fn find_next(&self, from: Pos, pat: &regex::Regex) -> (r: Option<Range<Pos>>)
        ensures
            r == self.next_match(from, *pat),
    ;

    /// The last match at or before a position, around the start of the text.
    fn find_prev(&self, from: Pos, pat: &regex::Regex) -> (r: Option<Range<Pos>>)
        ensures
            r == self.prev_match(from, *pat),
    ;
}

/// All that the engine asks of a text store.
pub trait TextStore: Cursor + BufferEdit + Search {

}

} // verus!
