# hjkl_engine

A vim-style editor engine whose behaviour is stated in contracts and proved by
Verus: motions, edits with their inverses and change records, undo, folds,
marks, soft-wrap viewport arithmetic, search highlights, the substitute command,
options, styled spans, frames and snapshots.

The text lives in `hjkl_buffer::Buffer`, patterns in `regex::Regex`. What those
two crates do is stated, not proved, in `src/rope.rs` and `src/pattern.rs`.

- `src/` is the library.
- `tests/` runs it with the real crates linked.
- `app/` converts the values of `ratatui`, `crossterm` and `serde` for a
  terminal program.

The state machine that turns keys into edits is a host's own: it gets its events
from `Editor::feed_input` and `Editor::handle_key` and works on the editor
through its public methods.
