//! Vim-style editor engine: no I/O, no terminal, no clock.
//!
//! [`Editor`] holds a text buffer and a host. The buffer is
//! `hjkl_buffer::Buffer`, reached through the traits of [`surface`]; the host
//! is whatever implements [`Host`]. Motions, viewport arithmetic and search
//! are written against the traits alone.
//!
//! The text is modelled as a sequence of lines, a line as a sequence of
//! characters, and a place as a row and a column that counts characters. What
//! the buffer crate and the `regex` crate do is stated in [`rope`] and
//! [`pattern`]; everything else is proved from that.
//!
//! - [`buffer`] models lines, edits and folds; [`edits`] applies an edit and
//!   [`inverses`] says what takes it back.
//! - [`motions`] moves the cursor, [`scrolling`] the viewport.
//! - [`editing`] holds the edit funnel and the undo history, [`view`] what a
//!   host draws and saves, [`spans`] the styled ranges.
//! - [`substitute`] parses and applies the substitute command.
use vstd::prelude::*;

pub mod buffer;
pub mod buffer_impl;
pub mod content;
pub mod edit_laws;
pub mod editing;
pub mod editor;
pub mod edits;
pub mod fold_laws;
pub mod folds;
pub mod input;
pub mod inverses;
pub mod marks;
pub mod motion_laws;
pub mod motions;
pub mod option_laws;
pub mod options;
pub mod pattern;
pub mod records;
pub mod registers;
pub mod rope;
pub mod screen_laws;
pub mod scrolling;
pub mod search;
pub mod search_laws;
pub mod settings;
pub mod spans;
pub mod state;
pub mod style;
pub mod substitute;
pub mod substitute_laws;
pub mod surface;
pub mod text;
pub mod text_laws;
pub mod types;
pub mod view;
pub mod viewport_math;

pub use editor::{Editor, LspIntent};
pub use input::{Input, Key};
pub use options::{OptionValue, Options, WrapMode};
pub use registers::{Registers, Slot};
pub use state::SearchPrompt;
pub use surface::{BufferEdit, Cursor, Query, Search, TextStore};
pub use types::{
    Attrs, BufferId, Color, CursorShape, DefaultHost, Edit, EditorSnapshot, EngineError, Highlight,
    HighlightKind, Host, Input as PlannedInput, Mode, Modifiers, MouseEvent, MouseKind, Pos,
    RenderFrame, Selection, SelectionKind, SelectionSet, SnapshotMode, SpecialKey, Style, Viewport,
};

verus! {

/// Which keyboard discipline the editor uses.
#[derive(Debug, Clone, Copy, PartialEq, Eq, Structural, Default)]
pub enum KeybindingMode {
    #[default]
    Vim,
}

/// The mode as a status line shows it.
#[derive(Debug, Clone, Copy, PartialEq, Eq, Structural, Default)]
pub enum VimMode {
    #[default]
    Normal,
    Insert,
    Visual,
    VisualLine,
    VisualBlock,
}

} // verus!
