//! Values of the public surface: positions, selections, edits, styles,
//! options, input events, snapshots and errors.
use std::ops::Range;

use vstd::prelude::*;

use crate::buffer;
use crate::registers::Registers;
use crate::text;
use crate::text::{copy_strings, copy_vec, push_number};

verus! {

/// `regex::Error`: why a pattern did not compile.
#[verifier::external_type_specification]
#[verifier::external_body]
pub struct ExRegexError(regex::Error);

/// A position in the buffer: zero-based line and column.
#[derive(Debug, Clone, Copy, PartialEq, Eq, Structural, PartialOrd, Ord, Hash)]
pub struct Pos {
    pub line: u32,
    pub col: u32,
}

impl Pos {
    /// The position at `line` and `col`.
    pub fn new(line: u32, col: u32) -> (p: Pos)
        ensures
            p == (Pos { line, col }),
    {
        Pos { line, col }
    }

    /// The first position of a buffer.
    pub fn origin() -> (p: Pos)
        ensures
            p == (Pos { line: 0, col: 0 }),
    {
        Pos { line: 0, col: 0 }
    }

    /// True when `self` comes before `other` in the document.
    pub open spec fn precedes(self, other: Pos) -> bool {
        self.line < other.line || (self.line == other.line && self.col < other.col)
    }
}

impl Default for Pos {
    fn default() -> (p: Pos)
        ensures
            p == (Pos { line: 0, col: 0 }),
    {
        Pos { line: 0, col: 0 }
    }
}

/// What kind of region a [`Selection`] covers.
#[derive(Debug, Clone, Copy, PartialEq, Eq, Structural, Hash, Default)]
pub enum SelectionKind {
    /// Characters from one end to the other, both included.
    #[default]
    Char,
    /// Whole lines.
    Line,
    /// A rectangle.
    Block,
}

/// One anchored selection, a mere caret when both ends are the same.
#[derive(Debug, Clone, Copy, PartialEq, Eq, Structural, Hash)]
pub struct Selection {
    pub anchor: Pos,
    pub head: Pos,
    pub kind: SelectionKind,
}

impl Selection {
    /// Caret at `pos`.
    pub fn caret(pos: Pos) -> (s: Selection)
        ensures
            s == (Selection { anchor: pos, head: pos, kind: SelectionKind::Char }),
    {
        Selection { anchor: pos, head: pos, kind: SelectionKind::Char }
    }

    /// The characters between `anchor` and `head`, both included.
    pub fn char_range(anchor: Pos, head: Pos) -> (s: Selection)
        ensures
            s == (Selection { anchor, head, kind: SelectionKind::Char }),
    {
        Selection { anchor, head, kind: SelectionKind::Char }
    }

    /// True when the selection is a caret.
    pub fn is_empty(&self) -> (b: bool)
        ensures
            b == (self.anchor == self.head),
    {
        self.anchor == self.head
    }
}

/// An ordered set of selections, never empty; `primary` is the index of the
/// one whose head is the cursor.
#[derive(Debug, Clone, PartialEq, Eq)]
pub struct SelectionSet {
    pub items: Vec<Selection>,
    pub primary: usize,
}

impl SelectionSet {
    /// A set holds at least one selection.
    pub open spec fn wf(&self) -> bool {
        self.items@.len() > 0
    }

    /// One caret at `pos`.
    pub fn caret(pos: Pos) -> (s: SelectionSet)
        ensures
            s.wf(),
            s.items@ == seq![Selection { anchor: pos, head: pos, kind: SelectionKind::Char }],
            s.primary == 0,
    {
        SelectionSet { items: vec![Selection::caret(pos)], primary: 0 }
    }

    /// The primary selection, or the first one when the index is past the end.
    pub fn primary(&self) -> (s: &Selection)
        requires
            self.wf(),
        ensures
            *s == if self.primary < self.items@.len() {
                self.items@[self.primary as int]
            } else {
                self.items@[0]
            },
    {
        if self.primary < self.items.len() {
            &self.items[self.primary]
        } else {
            &self.items[0]
        }
    }
}

impl Default for SelectionSet {
    fn default() -> (s: SelectionSet)
        ensures
            s.wf(),
            s.items@ == seq![
                Selection {
                    anchor: Pos { line: 0, col: 0 },
                    head: Pos { line: 0, col: 0 },
                    kind: SelectionKind::Char,
                },
            ],
            s.primary == 0,
    {
        SelectionSet::caret(Pos::origin())
    }
}

/// One text change: `replacement` takes the place of what `range` covers.
#[derive(Debug, PartialEq, Eq)]
pub struct Edit {
    pub range: Range<Pos>,
    pub replacement: String,
}

impl Clone for Edit {
    fn clone(&self) -> (e: Edit)
        ensures
            e == *self,
    {
        Edit { range: self.range.start..self.range.end, replacement: self.replacement.clone() }
    }
}

impl Edit {
    /// Insertion of `t` at `at`.
    pub fn insert(at: Pos, t: &str) -> (e: Edit)
        ensures
            e.range == (Range { start: at, end: at }),
            e.replacement@ == t@,
    {
        Edit { range: at..at, replacement: t.to_string() }
    }

    /// Deletion of `range`.
    pub fn delete(range: Range<Pos>) -> (e: Edit)
        ensures
            e.range == range,
            e.replacement@ == Seq::<char>::empty(),
    {
        Edit { range, replacement: String::new() }
    }

    /// Replacement of `range` by `t`.
    pub fn replace(range: Range<Pos>, t: &str) -> (e: Edit)
        ensures
            e.range == range,
            e.replacement@ == t@,
    {
        Edit { range, replacement: t.to_string() }
    }
}

/// Mode of the key state machine.
#[derive(Debug, Clone, Copy, PartialEq, Eq, Structural, Default)]
pub enum Mode {
    #[default]
    Normal,
    Insert,
    Visual,
    Replace,
    Command,
    OperatorPending,
}

/// Shape the cursor should take.
#[derive(Debug, Clone, Copy, PartialEq, Eq, Structural, Hash, Default)]
pub enum CursorShape {
    #[default]
    Block,
    Bar,
    Underline,
}

/// A span of time, to the nanosecond.
#[derive(Debug, Clone, Copy, PartialEq, Eq, Structural, PartialOrd, Ord, Hash, Default)]
pub struct Duration {
    /// Length in nanoseconds.
    pub nanos: u128,
}

impl Duration {
    /// The span of `millis` milliseconds.
    pub fn from_millis(millis: u64) -> (d: Duration)
        ensures
            d.nanos == millis * 1_000_000,
    {
        Duration { nanos: millis as u128 * 1_000_000 }
    }

    /// The whole milliseconds of the span.
    pub fn as_millis(&self) -> (n: u128)
        ensures
            n == self.nanos / 1_000_000,
    {
        self.nanos / 1_000_000
    }
}

/// A color: red, green and blue.
#[derive(Debug, Clone, Copy, PartialEq, Eq, Structural, Hash, Default)]
pub struct Color(pub u8, pub u8, pub u8);

/// Text attributes as a set of bits.
#[derive(Debug, Clone, Copy, PartialEq, Eq, Structural, Hash)]
pub struct Attrs {
    /// One bit per attribute.
    pub bits: u8,
}

impl Attrs {
    /// No attribute.
    pub fn empty() -> (a: Attrs)
        ensures
            a.bits == 0,
    {
        Attrs { bits: 0 }
    }

    /// Bold text.
    pub fn bold() -> (a: Attrs)
        ensures
            a.bits == 1,
    {
        Attrs { bits: 1 }
    }

    /// Italic text.
    pub fn italic() -> (a: Attrs)
        ensures
            a.bits == 2,
    {
        Attrs { bits: 2 }
    }

    /// Underlined text.
    pub fn underline() -> (a: Attrs)
        ensures
            a.bits == 4,
    {
        Attrs { bits: 4 }
    }

    /// Foreground and background swapped.
    pub fn reverse() -> (a: Attrs)
        ensures
            a.bits == 8,
    {
        Attrs { bits: 8 }
    }

    /// Dimmed text.
    pub fn dim() -> (a: Attrs)
        ensures
            a.bits == 16,
    {
        Attrs { bits: 16 }
    }

    /// Crossed out text.
    pub fn strike() -> (a: Attrs)
        ensures
            a.bits == 32,
    {
        Attrs { bits: 32 }
    }

    /// True when every attribute of `other` is in `self` too.
    pub fn contains(&self, other: Attrs) -> (b: bool)
        ensures
            b == (self.bits & other.bits == other.bits),
    {
        self.bits & other.bits == other.bits
    }
}

impl Default for Attrs {
    fn default() -> (a: Attrs)
        ensures
            a.bits == 0,
    {
        Attrs { bits: 0 }
    }
}

impl std::ops::BitOr for Attrs {
    type Output = Attrs;

    fn bitor(self, other: Attrs) -> (a: Attrs) {
        Attrs { bits: self.bits | other.bits }
    }
}

impl vstd::std_specs::ops::BitOrSpecImpl for Attrs {
    open spec fn obeys_bitor_spec() -> bool {
        true
    }

    open spec fn bitor_req(self, other: Attrs) -> bool {
        true
    }

    open spec fn bitor_spec(self, other: Attrs) -> Attrs {
        Attrs { bits: self.bits | other.bits }
    }
}

/// How a run of text is painted.
#[derive(Debug, Clone, Copy, PartialEq, Eq, Structural)]
pub struct Style {
    pub fg: Option<Color>,
    pub bg: Option<Color>,
    pub attrs: Attrs,
}

impl Default for Style {
    fn default() -> (s: Style)
        ensures
            s == (Style { fg: None, bg: None, attrs: Attrs { bits: 0 } }),
    {
        Style { fg: None, bg: None, attrs: Attrs { bits: 0 } }
    }
}

/// What a [`Highlight`] stands for.
#[derive(Debug, Clone, Copy, PartialEq, Eq, Structural)]
pub enum HighlightKind {
    Selection,
    SearchMatch,
    IncSearch,
    MatchParen,
    /// Syntax styling; the number is the host's.
    Syntax(u32),
}

/// A range of text to paint in a special way.
#[derive(Debug, PartialEq, Eq)]
pub struct Highlight {
    pub range: Range<Pos>,
    pub kind: HighlightKind,
}

impl Clone for Highlight {
    fn clone(&self) -> (h: Highlight)
        ensures
            h == *self,
    {
        Highlight { range: self.range.start..self.range.end, kind: self.kind }
    }
}

/// Errors the engine reports to its host.
#[derive(Debug)]
pub enum EngineError {
    /// A search or substitute pattern did not compile.
    Regex(regex::Error),
    /// A line range could not be parsed.
    InvalidRange(String),
    /// A command could not be parsed.
    Ex(String),
    /// An edit was attempted on a read-only buffer.
    ReadOnly,
    /// A position lies outside the buffer.
    OutOfBounds(Pos),
    /// A snapshot has another version: found, expected.
    SnapshotVersion(u32, u32),
}

/// The text of a regex error.
pub uninterp spec fn regex_error_text(e: regex::Error) -> Seq<char>;

/// `Display` for `regex::Error`: why the pattern did not compile.
#[verifier::external_body]
pub(crate) fn describe_regex_error(e: &regex::Error) -> (s: String)
    ensures
        s@ == regex_error_text(*e),
{
    e.to_string()
}

impl EngineError {
    /// What the message of an error says.
    pub open spec fn message(self) -> Seq<char> {
        match self {
            EngineError::Regex(e) => "regex compile error: "@ + regex_error_text(e),
            EngineError::InvalidRange(s) => "invalid range: "@ + s@,
            EngineError::Ex(s) => "ex parse: "@ + s@,
            EngineError::ReadOnly => "buffer is read-only"@,
            EngineError::OutOfBounds(p) => "position out of bounds: Pos { line: "@ + text::digits(
                p.line as nat,
            ) + ", col: "@ + text::digits(p.col as nat) + " }"@,
            EngineError::SnapshotVersion(found, expected) => "snapshot version mismatch: file="@
                + text::digits(found as nat) + ", expected="@ + text::digits(expected as nat),
        }
    }

    /// The message of the error.
    pub fn to_string(&self) -> (s: String)
        ensures
            s@ == self.message(),
    {
        let mut s = String::new();
        match self {
            EngineError::Regex(e) => {
                s.push_str("regex compile error: ");
                let t = describe_regex_error(e);
                s.push_str(t.as_str());
            },
            EngineError::InvalidRange(t) => {
                s.push_str("invalid range: ");
                s.push_str(t.as_str());
            },
            EngineError::Ex(t) => {
                s.push_str("ex parse: ");
                s.push_str(t.as_str());
            },
            EngineError::ReadOnly => {
                s.push_str("buffer is read-only");
            },
            EngineError::OutOfBounds(p) => {
                s.push_str("position out of bounds: Pos { line: ");
                push_number(&mut s, p.line as u64);
                s.push_str(", col: ");
                push_number(&mut s, p.col as u64);
                s.push_str(" }");
            },
            EngineError::SnapshotVersion(found, expected) => {
                s.push_str("snapshot version mismatch: file=");
                push_number(&mut s, *found as u64);
                s.push_str(", expected=");
                push_number(&mut s, *expected as u64);
            },
        }
        assert(s@ =~= self.message());
        s
    }
}

impl From<regex::Error> for EngineError {
    fn from(e: regex::Error) -> (r: EngineError) {
        EngineError::Regex(e)
    }
}

impl vstd::std_specs::convert::FromSpecImpl<regex::Error> for EngineError {
    open spec fn obeys_from_spec() -> bool {
        true
    }

    open spec fn from_spec(e: regex::Error) -> EngineError {
        EngineError::Regex(e)
    }
}

/// The part of a buffer that a host shows.
#[derive(Debug, Default, Clone, Copy, PartialEq, Eq, Structural, Hash)]
pub struct Viewport {
    pub top_line: u32,
    pub height: u32,
    pub scroll_off: u32,
}

/// A buffer as its host numbers it.
#[derive(Debug, Default, Clone, Copy, PartialEq, Eq, Structural, Hash)]
pub struct BufferId(pub u64);

/// Modifier keys held down with a key.
#[derive(Debug, Default, Clone, Copy, PartialEq, Eq, Structural, Hash)]
pub struct Modifiers {
    pub ctrl: bool,
    pub shift: bool,
    pub alt: bool,
    pub super_: bool,
}

/// A key that is no printable character.
#[derive(Debug, Clone, Copy, PartialEq, Eq, Structural, Hash)]
#[non_exhaustive]
pub enum SpecialKey {
    Esc,
    Enter,
    Backspace,
    Tab,
    BackTab,
    Up,
    Down,
    Left,
    Right,
    Home,
    End,
    PageUp,
    PageDown,
    Insert,
    Delete,
    F(u8),
}

/// What a mouse did.
#[derive(Debug, Clone, Copy, PartialEq, Eq, Structural, Hash)]
pub enum MouseKind {
    Press,
    Release,
    Drag,
    ScrollUp,
    ScrollDown,
}

/// A mouse event.
#[derive(Debug, Clone, Copy, PartialEq, Eq, Structural, Hash)]
pub struct MouseEvent {
    pub kind: MouseKind,
    pub pos: Pos,
    pub mods: Modifiers,
}

/// One event handed to the engine.
#[derive(Debug, Clone, PartialEq, Eq)]
#[non_exhaustive]
pub enum Input {
    Char(char, Modifiers),
    Key(SpecialKey, Modifiers),
    Mouse(MouseEvent),
    /// Pasted text, to be inserted as it is.
    Paste(String),
    FocusGained,
    FocusLost,
    Resize(u16, u16),
}

/// Mode summary of a snapshot or a frame.
#[derive(Debug, Default, Clone, Copy, PartialEq, Eq, Structural, Hash)]
pub enum SnapshotMode {
    #[default]
    Normal,
    Insert,
    Visual,
    VisualLine,
    VisualBlock,
}

/// What a host needs to draw one frame.
#[derive(Debug, Clone, Copy, PartialEq, Eq, Structural, Hash)]
pub struct RenderFrame {
    pub mode: SnapshotMode,
    pub cursor_row: u32,
    pub cursor_col: u32,
    pub cursor_shape: CursorShape,
    pub viewport_top: u32,
    pub line_count: u32,
}

/// The state of an editor that can be saved and restored.
#[derive(Debug)]
pub struct EditorSnapshot {
    /// Format version; a snapshot of another version is rejected.
    pub version: u32,
    /// Mode when the snapshot was taken.
    pub mode: SnapshotMode,
    /// Cursor as its row and the byte of that row at which it stands.
    pub cursor: (u32, u32),
    /// The lines, without their line breaks.
    pub lines: Vec<String>,
    /// First row of the viewport.
    pub viewport_top: u32,
    /// The registers.
    pub registers: Registers,
    /// The named marks in order of their names.
    pub file_marks: Vec<(char, (u32, u32))>,
}

impl Clone for EditorSnapshot {
    fn clone(&self) -> (s: EditorSnapshot)
        ensures
            s.version == self.version,
            s.mode == self.mode,
            s.cursor == self.cursor,
            s.lines@ == self.lines@,
            s.viewport_top == self.viewport_top,
            s.registers.same(&self.registers),
            s.file_marks@ == self.file_marks@,
    {
        EditorSnapshot {
            version: self.version,
            mode: self.mode,
            cursor: self.cursor,
            lines: copy_strings(&self.lines),
            viewport_top: self.viewport_top,
            registers: self.registers.clone(),
            file_marks: copy_vec(&self.file_marks),
        }
    }
}

impl EditorSnapshot {
    /// The format version that this library writes and reads.
    pub const VERSION: u32 = 3;
}

/// What the engine asks of the program it runs in.
pub trait Host: Send {
    /// An event of the host's own that the engine can raise.
    type Intent;

    /// The viewport that the host shows.
    open spec fn port(&self) -> buffer::Viewport {
        arbitrary()
    }

    /// The text last written to the clipboard.
    open spec fn clipboard_text(&self) -> Option<Seq<char>> {
        arbitrary()
    }

    /// The cursor shape last asked for.
    open spec fn shape(&self) -> Option<CursorShape> {
        arbitrary()
    }

    /// Queues a write to the clipboard.
    fn write_clipboard(&mut self, t: String)
        ensures
            final(self).clipboard_text() == Some(t@),
            final(self).port() == old(self).port(),
            final(self).shape() == old(self).shape(),
    ;

    /// The clipboard as the host last knew it; it may be stale.
    fn read_clipboard(&mut self) -> Option<String>;

    /// Monotonic time.
    fn now(&self) -> Duration;

    /// True when a long computation should stop.
    fn should_cancel(&self) -> (stop: bool)
        default_ensures
            !stop,
    {
        false
    }

    /// Asks the user for a search pattern; `None` aborts the search.
    fn prompt_search(&mut self) -> Option<String>;

    /// The display line of a position; without wrapping, its line.
    fn display_line_for(&self, pos: Pos) -> (line: u32)
        default_ensures
            line == pos.line,
    {
        pos.line
    }

    /// The position on a display line; without wrapping, on that line.
    fn pos_for_display(&self, line: u32, col: u32) -> (pos: Pos)
        default_ensures
            pos == (Pos { line, col }),
    {
        Pos { line, col }
    }

    /// Syntax highlights of a range; none by default.
    fn syntax_highlights(&self, range: Range<Pos>) -> (v: Vec<Highlight>)
        default_ensures
            v@.len() == 0,
    {
        Vec::new()
    }

    /// Asks for a cursor shape, on every change of mode.
    fn emit_cursor_shape(&mut self, shape: CursorShape)
        ensures
            final(self).shape() == Some(shape),
            final(self).port() == old(self).port(),
            final(self).clipboard_text() == old(self).clipboard_text(),
    ;

    /// The viewport that the host shows.
    fn viewport(&self) -> (v: &buffer::Viewport)
        ensures
            *v == self.port(),
    ;

    /// The viewport that the host shows, for moving it.
    fn viewport_mut(&mut self) -> (v: &mut buffer::Viewport)
        ensures
            *v == old(self).port(),
            final(self).port() == *final(v),
            final(self).clipboard_text() == old(self).clipboard_text(),
            final(self).shape() == old(self).shape(),
    ;

    /// Raises an event of the host's own.
    fn emit_intent(&mut self, intent: Self::Intent);
}

/// A host that keeps everything to itself: for tests and for embedding.
#[derive(Debug)]
pub struct DefaultHost {
    pub clipboard: Option<String>,
    pub cursor_shape: Option<CursorShape>,
    pub viewport: buffer::Viewport,
    pub clock: Duration,
}

impl DefaultHost {
    /// A host with an empty clipboard and a viewport of 80 by 24 cells.
    pub fn new() -> (h: DefaultHost)
        ensures
            h.clipboard is None,
            h.cursor_shape is None,
            h.viewport == (buffer::Viewport {
                top_row: 0,
                top_col: 0,
                width: 80,
                height: 24,
                wrap: buffer::Wrap::Off,
                text_width: 80,
                tab_width: 0,
            }),
            h.clock.nanos == 0,
    {
        DefaultHost {
            clipboard: None,
            cursor_shape: None,
            viewport: buffer::Viewport {
                top_row: 0,
                top_col: 0,
                width: 80,
                height: 24,
                wrap: buffer::Wrap::Off,
                text_width: 80,
                tab_width: 0,
            },
            clock: Duration { nanos: 0 },
        }
    }
}

impl Host for DefaultHost {
    type Intent = ();

    open spec fn port(&self) -> buffer::Viewport {
        self.viewport
    }

    open spec fn clipboard_text(&self) -> Option<Seq<char>> {
        match self.clipboard {
            Some(t) => Some(t@),
            None => None,
        }
    }

    open spec fn shape(&self) -> Option<CursorShape> {
        self.cursor_shape
    }

    fn write_clipboard(&mut self, t: String)
        ensures
            *final(self) == (DefaultHost { clipboard: Some(t), ..*old(self) }),
    {
        self.clipboard = Some(t);
    }

    fn read_clipboard(&mut self) -> (t: Option<String>)
        ensures
            *final(self) == *old(self),
            match (t, old(self).clipboard) {
                (Some(a), Some(b)) => a@ == b@,
                (None, None) => true,
                _ => false,
            },
    {
        match &self.clipboard {
            Some(t) => Some(t.clone()),
            None => None,
        }
    }

    fn now(&self) -> (d: Duration)
        ensures
            d == self.clock,
    {
        self.clock
    }

    fn prompt_search(&mut self) -> (p: Option<String>)
        ensures
            p is None,
            *final(self) == *old(self),
    {
        None
    }

    fn emit_cursor_shape(&mut self, shape: CursorShape)
        ensures
            *final(self) == (DefaultHost { cursor_shape: Some(shape), ..*old(self) }),
    {
        self.cursor_shape = Some(shape);
    }

    fn viewport(&self) -> &buffer::Viewport {
        &self.viewport
    }

    fn viewport_mut(&mut self) -> (v: &mut buffer::Viewport)
        ensures
            *final(self) == (DefaultHost { viewport: *final(v), ..*old(self) }),
    {
        &mut self.viewport
    }

    fn emit_intent(&mut self, intent: ())
        ensures
            *final(self) == *old(self),
    {
    }
}

/// Places are in one order, rows before columns: of two places one comes before the
/// other or they are the same, as their numbers say when rows are counted in steps
/// that no column reaches.
pub proof fn law_places_are_in_order(a: Pos, b: Pos)
    ensures
        a.precedes(b) <==> a.line * 0x1_0000_0000 + a.col < b.line * 0x1_0000_0000 + b.col,
        a == b <==> !a.precedes(b) && !b.precedes(a),
{
}

/// The message of an error says what kind it is and then, word for word, what it
/// carries.
pub proof fn law_messages_carry_their_text(s: String, p: Pos, found: u32, expected: u32)
    ensures
        EngineError::InvalidRange(s).message() == "invalid range: "@ + s@,
        EngineError::Ex(s).message() == "ex parse: "@ + s@,
        EngineError::OutOfBounds(p).message() == "position out of bounds: Pos { line: "@
            + text::decimal(p.line as int) + ", col: "@ + text::decimal(p.col as int) + " }"@,
        EngineError::SnapshotVersion(found, expected).message()
            == "snapshot version mismatch: file="@ + text::decimal(found as int) + ", expected="@
            + text::decimal(expected as int),
        EngineError::ReadOnly.message() == "buffer is read-only"@,
{
}

} // verus!
