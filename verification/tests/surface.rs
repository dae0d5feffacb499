//! The trait surface on the rope buffer, and folds.
use std::borrow::Cow;

use hjkl_buffer::Buffer as RopeBuffer;
use hjkl_engine::buffer_impl::{pos_to_position, position_to_pos};
use hjkl_engine::folds::{BufferFoldProviderMut, FoldOp, FoldProvider, NoopFoldProvider};
use hjkl_engine::{BufferEdit, Cursor, Pos, Query, Search, TextStore};
use regex::Regex;

/// The rope buffer is a full text store.
#[test]
fn rope_buffer_implements_spec_buffer() {
    fn assert_buffer<B: TextStore>() {}
    fn assert_cursor<B: Cursor>() {}
    fn assert_query<B: Query>() {}
    fn assert_edit<B: BufferEdit>() {}
    fn assert_search<B: Search>() {}
    assert_buffer::<RopeBuffer>();
    assert_cursor::<RopeBuffer>();
    assert_query::<RopeBuffer>();
    assert_edit::<RopeBuffer>();
    assert_search::<RopeBuffer>();
}

#[test]
fn cursor_roundtrip() {
    let mut b = RopeBuffer::from_str("hello\nworld");
    Cursor::set_cursor(&mut b, Pos::new(1, 3));
    assert_eq!(Cursor::cursor(&b), Pos::new(1, 3));
}

#[test]
fn query_line_count_and_line() {
    let b = RopeBuffer::from_str("a\nb\nc");
    assert_eq!(Query::line_count(&b), 3);
    assert_eq!(Query::line(&b, 0), "a");
    assert_eq!(Query::line(&b, 2), "c");
}

#[test]
fn query_len_bytes_matches_join() {
    let b = RopeBuffer::from_str("foo\nbar\nbaz");
    assert_eq!(Query::len_bytes(&b), b.as_string().len());
}

#[test]
fn query_slice_single_line_borrows() {
    let b = RopeBuffer::from_str("hello world");
    let s = Query::slice(&b, Pos::new(0, 0)..Pos::new(0, 5));
    assert_eq!(&*s, "hello");
    assert!(matches!(s, Cow::Borrowed(_)));
}

#[test]
fn query_slice_multiline_allocates() {
    let b = RopeBuffer::from_str("ab\ncd\nef");
    let s = Query::slice(&b, Pos::new(0, 1)..Pos::new(2, 1));
    assert_eq!(&*s, "b\ncd\ne");
    assert!(matches!(s, Cow::Owned(_)));
}

#[test]
fn cursor_byte_offset_and_inverse() {
    let b = RopeBuffer::from_str("hello\nworld");
    // Start of row 1 = 6 bytes ('h','e','l','l','o','\n').
    let p = Pos::new(1, 0);
    assert_eq!(Cursor::byte_offset(&b, p), 6);
    assert_eq!(Cursor::pos_at_byte(&b, 6), p);
    // Roundtrip mid-line.
    let p2 = Pos::new(1, 3);
    let off = Cursor::byte_offset(&b, p2);
    assert_eq!(Cursor::pos_at_byte(&b, off), p2);
}

#[test]
fn buffer_edit_insert_delete_replace() {
    let mut b = RopeBuffer::from_str("hello");
    BufferEdit::insert_at(&mut b, Pos::new(0, 5), " world");
    assert_eq!(b.as_string(), "hello world");
    BufferEdit::delete_range(&mut b, Pos::new(0, 5)..Pos::new(0, 11));
    assert_eq!(b.as_string(), "hello");
    BufferEdit::replace_range(&mut b, Pos::new(0, 0)..Pos::new(0, 5), "HI");
    assert_eq!(b.as_string(), "HI");
}

/// A store that does not override `replace_all` gets it through
/// `replace_range`.
#[test]
fn buffer_edit_default_replace_all_routes_through_replace_range() {
    struct MockBuf {
        cursor: Pos,
        lines: Vec<String>,
        last_replace_range: Option<core::ops::Range<Pos>>,
    }
    impl Cursor for MockBuf {
        fn cursor(&self) -> Pos {
            self.cursor
        }
        fn set_cursor(&mut self, p: Pos) {
            self.cursor = p;
        }
        fn byte_offset(&self, _p: Pos) -> usize {
            0
        }
        fn pos_at_byte(&self, _b: usize) -> Pos {
            Pos::origin()
        }
    }
    impl Query for MockBuf {
        fn line_count(&self) -> u32 {
            self.lines.len() as u32
        }
        fn line(&self, idx: u32) -> &str {
            &self.lines[idx as usize]
        }
        fn len_bytes(&self) -> usize {
            0
        }
        fn slice(&self, _r: core::ops::Range<Pos>) -> Cow<'_, str> {
            Cow::Borrowed("")
        }
    }
    impl BufferEdit for MockBuf {
        fn insert_at(&mut self, _p: Pos, _t: &str) {}
        fn delete_range(&mut self, _r: core::ops::Range<Pos>) {}
        fn replace_range(&mut self, range: core::ops::Range<Pos>, _t: &str) {
            self.last_replace_range = Some(range);
        }
    }
    impl Search for MockBuf {
        fn find_next(&self, _f: Pos, _p: &Regex) -> Option<core::ops::Range<Pos>> {
            None
        }
        fn find_prev(&self, _f: Pos, _p: &Regex) -> Option<core::ops::Range<Pos>> {
            None
        }
    }
    impl TextStore for MockBuf {}

    let mut m = MockBuf {
        cursor: Pos::origin(),
        lines: vec!["hi".into()],
        last_replace_range: None,
    };
    BufferEdit::replace_all(&mut m, "new content");
    let r = m
        .last_replace_range
        .expect("default impl must hit replace_range");
    assert_eq!(r.start, Pos::origin());
    assert_eq!(r.end.line, u32::MAX);
    assert_eq!(r.end.col, u32::MAX);
}

#[test]
fn buffer_edit_replace_all_rebuilds_content() {
    let mut b = RopeBuffer::from_str("hello\nworld");
    Cursor::set_cursor(&mut b, Pos::new(1, 3));
    BufferEdit::replace_all(&mut b, "alpha\nbeta\ngamma");
    assert_eq!(b.as_string(), "alpha\nbeta\ngamma");
    assert_eq!(Query::line_count(&b), 3);
    // Cursor clamped to surviving content (`replace_all` invariant).
    let c = Cursor::cursor(&b);
    assert!((c.line as usize) < Query::line_count(&b) as usize);
}

#[test]
fn search_find_next_same_row() {
    let b = RopeBuffer::from_str("abc def abc");
    let pat = Regex::new("abc").unwrap();
    let r = Search::find_next(&b, Pos::new(0, 0), &pat).unwrap();
    assert_eq!(r, Pos::new(0, 0)..Pos::new(0, 3));
    let r2 = Search::find_next(&b, Pos::new(0, 1), &pat).unwrap();
    assert_eq!(r2, Pos::new(0, 8)..Pos::new(0, 11));
}

#[test]
fn search_find_next_wraps() {
    let b = RopeBuffer::from_str("foo\nbar\nfoo");
    let pat = Regex::new("foo").unwrap();
    // Starting on row 1: should find row 2's "foo".
    let r = Search::find_next(&b, Pos::new(1, 0), &pat).unwrap();
    assert_eq!(r, Pos::new(2, 0)..Pos::new(2, 3));
}

#[test]
fn search_find_prev_same_row() {
    let b = RopeBuffer::from_str("abc def abc");
    let pat = Regex::new("abc").unwrap();
    let r = Search::find_prev(&b, Pos::new(0, 11), &pat).unwrap();
    assert_eq!(r, Pos::new(0, 8)..Pos::new(0, 11));
}

#[test]
fn pos_position_roundtrip() {
    let p = Pos::new(7, 3);
    assert_eq!(position_to_pos(pos_to_position(p)), p);
}

#[test]
fn fold_provider_mut_apply_add_open_close_toggle() {
    let mut buf = RopeBuffer::from_str("a\nb\nc\nd\ne");
    {
        let mut p = BufferFoldProviderMut::new(&mut buf);
        p.apply(FoldOp::Add {
            start_row: 1,
            end_row: 3,
            closed: true,
        });
        assert_eq!(p.fold_at_row(2), Some((1, 3, true)));
        p.apply(FoldOp::OpenAt(2));
        assert_eq!(p.fold_at_row(2), Some((1, 3, false)));
        p.apply(FoldOp::CloseAt(2));
        assert_eq!(p.fold_at_row(2), Some((1, 3, true)));
        p.apply(FoldOp::ToggleAt(2));
        assert_eq!(p.fold_at_row(2), Some((1, 3, false)));
    }
    assert_eq!(buf.folds().len(), 1);
}

#[test]
fn fold_provider_mut_apply_open_close_clear_all() {
    let mut buf = RopeBuffer::from_str("a\nb\nc\nd\ne");
    buf.add_fold(0, 1, false);
    buf.add_fold(2, 3, true);
    {
        let mut p = BufferFoldProviderMut::new(&mut buf);
        p.apply(FoldOp::CloseAll);
    }
    assert!(buf.folds().iter().all(|f| f.closed));
    {
        let mut p = BufferFoldProviderMut::new(&mut buf);
        p.apply(FoldOp::OpenAll);
    }
    assert!(buf.folds().iter().all(|f| !f.closed));
    {
        let mut p = BufferFoldProviderMut::new(&mut buf);
        p.apply(FoldOp::ClearAll);
    }
    assert!(buf.folds().is_empty());
}

#[test]
fn fold_provider_mut_invalidate_range_drops_overlapping() {
    let mut buf = RopeBuffer::from_str("a\nb\nc\nd\ne");
    buf.add_fold(0, 1, true);
    buf.add_fold(2, 3, true);
    buf.add_fold(4, 4, true);
    {
        let mut p = BufferFoldProviderMut::new(&mut buf);
        p.invalidate_range(2, 3);
    }
    let starts: Vec<usize> = buf.folds().iter().map(|f| f.start_row).collect();
    assert_eq!(starts, vec![0, 4]);
}

#[test]
fn fold_provider_mut_apply_remove_at() {
    let mut buf = RopeBuffer::from_str("a\nb\nc\nd\ne");
    buf.add_fold(1, 3, true);
    {
        let mut p = BufferFoldProviderMut::new(&mut buf);
        p.apply(FoldOp::RemoveAt(2));
    }
    assert!(buf.folds().is_empty());
}

#[test]
fn noop_fold_provider_apply_is_noop() {
    let mut p = NoopFoldProvider;
    FoldProvider::apply(&mut p, FoldOp::OpenAll);
    FoldProvider::invalidate_range(&mut p, 0, 5);
    // Read methods unaffected.
    assert!(!FoldProvider::is_row_hidden(&p, 3));
}
