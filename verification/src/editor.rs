//! The editor: a buffer, a host and the state between them.
use std::sync::Arc;

use hjkl_buffer::Buffer as RopeBuffer;
use vstd::prelude::*;

use crate::content::ContentEdit;
use crate::folds;
use crate::folds::FoldOp;
use crate::input;
use crate::input::{input_to_key, term_to_input, Input, Key, TermKey};
use crate::marks::Marks;
use crate::options::Options;
use crate::registers;
use crate::registers::{Registers, Slot};
use crate::rope;
use crate::search::SearchState;
use crate::settings;
use crate::settings::{options_from_settings, settings_from_options, Settings};
use crate::state::{SearchPrompt, VimState};
use crate::style::TermStyle;
use crate::surface::TextStore;
use crate::text;
use crate::types::{CursorShape, DefaultHost, Edit as EditOp, Host, Input as PlannedInput};
use crate::{KeybindingMode, VimMode};

verus! {

/// A request to the language server that a key raised.
#[derive(Debug, Clone, Copy, PartialEq, Eq, Structural)]
pub enum LspIntent {
    GotoDefinition,
}

/// A styled byte range of a row; the style is an index of the style table.
#[derive(Debug, Clone, Copy, PartialEq, Eq, Structural)]
pub struct Span {
    pub start_byte: usize,
    pub end_byte: usize,
    pub style: u32,
}

/// The editor.
pub struct Editor<B: TextStore = RopeBuffer, H: Host = DefaultHost> {
    /// The keyboard discipline.
    pub keybinding_mode: KeybindingMode,
    /// The text last yanked or cut.
    pub last_yank: Option<String>,
    /// State of the key machine.
    pub vim: VimState,
    /// Earlier texts with their cursors, the latest last.
    pub undo_stack: Vec<(Vec<String>, (usize, usize))>,
    /// Undone texts with their cursors, the latest last.
    pub redo_stack: Vec<(Vec<String>, (usize, usize))>,
    /// Whether the text changed since the host last asked.
    pub content_dirty: bool,
    /// The text as one string, while it is known.
    pub cached_content: Option<Arc<String>>,
    /// Height of the text area as last drawn.
    pub viewport_height: u16,
    /// A request to the language server, not fetched yet.
    pub pending_lsp: Option<LspIntent>,
    /// Fold changes, not fetched yet.
    pub pending_fold_ops: Vec<FoldOp>,
    /// The text.
    pub buffer: B,
    /// Interned styles.
    pub style_table: Vec<TermStyle>,
    /// Registers.
    pub registers: Registers,
    /// Styled byte ranges per row as last installed.
    pub styled_spans: Vec<Vec<(usize, usize, TermStyle)>>,
    /// Settings.
    pub settings: Settings,
    /// Named marks.
    pub marks: Marks,
    /// Foldable row ranges as the host found them.
    pub syntax_fold_ranges: Vec<(usize, usize)>,
    /// Edit records, not fetched yet.
    pub change_log: Vec<EditOp>,
    /// The column that vertical motions aim at.
    pub sticky_col: Option<usize>,
    /// The host.
    pub host: H,
    /// The mode for which the host was last asked for a cursor shape.
    pub last_emitted_mode: VimMode,
    /// The active search.
    pub search_state: SearchState,
    /// Styled byte ranges per row.
    pub buffer_spans: Vec<Vec<Span>>,
    /// Byte records of edits, not fetched yet.
    pub pending_content_edits: Vec<ContentEdit>,
    /// Whether the text was replaced as a whole since the host last asked.
    pub pending_content_reset: bool,
}

impl<B: TextStore, H: Host> Editor<B, H> {
    /// The buffer.
    pub fn buffer(&self) -> (b: &B)
        ensures
            *b == self.buffer,
    {
        &self.buffer
    }

    /// The buffer, for changing it. Who changes the text this way has to call
    /// [`Editor::mark_content_dirty`] after it.
    pub fn buffer_mut(&mut self) -> (b: &mut B)
        ensures
            *b == old(self).buffer,
            *final(self) == (Editor { buffer: *final(b), ..*old(self) }),
    {
        &mut self.buffer
    }

    /// The host.
    pub fn host(&self) -> (h: &H)
        ensures
            *h == self.host,
    {
        &self.host
    }

    /// The host, for changing it.
    pub fn host_mut(&mut self) -> (h: &mut H)
        ensures
            *h == old(self).host,
            *final(self) == (Editor { host: *final(h), ..*old(self) }),
    {
        &mut self.host
    }
}

impl<H: Host> Editor<RopeBuffer, H> {
    /// An editor of a buffer, in normal mode, with empty histories.
    pub fn new(b: RopeBuffer, host: H, options: Options) -> (e: Editor<RopeBuffer, H>)
        ensures
            e.buffer == b,
            e.host == host,
            e.settings == settings::settings_for(options),
            e.keybinding_mode is Vim,
            e.last_yank is None,
            e.vim.fresh(),
            e.undo_stack@.len() == 0,
            e.redo_stack@.len() == 0,
            !e.content_dirty,
            e.cached_content is None,
            e.viewport_height == 0,
            e.pending_lsp is None,
            e.pending_fold_ops@.len() == 0,
            e.style_table@.len() == 0,
            e.registers.blank(),
            e.styled_spans@.len() == 0,
            e.marks@ == Map::<char, (usize, usize)>::empty(),
            e.syntax_fold_ranges@.len() == 0,
            e.change_log@.len() == 0,
            e.sticky_col is None,
            e.last_emitted_mode is Normal,
            e.search_state.pattern is None,
            e.search_state.wrap_around,
            e.buffer_spans@.len() == 0,
            e.pending_content_edits@.len() == 0,
            !e.pending_content_reset,
    {
        let settings = settings_from_options(&options);
        Editor {
            keybinding_mode: KeybindingMode::Vim,
            last_yank: None,
            vim: VimState::new(),
            undo_stack: Vec::new(),
            redo_stack: Vec::new(),
            content_dirty: false,
            cached_content: None,
            viewport_height: 0,
            pending_lsp: None,
            pending_fold_ops: Vec::new(),
            buffer: b,
            style_table: Vec::new(),
            registers: Registers::default(),
            styled_spans: Vec::new(),
            settings,
            marks: Marks::new(),
            syntax_fold_ranges: Vec::new(),
            change_log: Vec::new(),
            sticky_col: None,
            host,
            last_emitted_mode: VimMode::Normal,
            search_state: SearchState::new(),
            buffer_spans: Vec::new(),
            pending_content_edits: Vec::new(),
            pending_content_reset: false,
        }
    }
}

/// True for `a` to `z`.
pub open spec fn lower_letter(c: char) -> bool {
    'a' <= c <= 'z'
}

/// True for `A` to `Z`.
pub open spec fn upper_letter(c: char) -> bool {
    'A' <= c <= 'Z'
}

/// The marks of a list whose names are letters of one case.
pub open spec fn marks_of_case(s: Seq<(char, (usize, usize))>, lower: bool) -> Seq<
    (char, (usize, usize)),
>
    decreases s.len(),
{
    if s.len() == 0 {
        s
    } else {
        let head = marks_of_case(s.drop_last(), lower);
        let c = s.last().0;
        if (lower && lower_letter(c)) || (!lower && upper_letter(c)) {
            head.push(s.last())
        } else {
            head
        }
    }
}

fn marks_in_case(v: &Vec<(char, (usize, usize))>, lower: bool) -> (out: Vec<
    (char, (usize, usize)),
>)
    ensures
        out@ == marks_of_case(v@, lower),
{
    let mut out: Vec<(char, (usize, usize))> = Vec::new();
    let mut i: usize = 0;
    while i < v.len()
        invariant
            i <= v@.len(),
            out@ == marks_of_case(v@.take(i as int), lower),
        decreases v.len() - i,
    {
        let e = v[i];
        assert(v@.take(i + 1).drop_last() =~= v@.take(i as int));
        let hit = if lower {
            'a' <= e.0 && e.0 <= 'z'
        } else {
            'A' <= e.0 && e.0 <= 'Z'
        };
        if hit {
            out.push(e);
        }
        i = i + 1;
    }
    assert(v@.take(i as int) =~= v@);
    out
}

impl<H: Host> Editor<RopeBuffer, H> {
    /// Sets the characters that belong to a word.
    pub fn set_iskeyword(&mut self, spec: &str)
        ensures
            final(self).settings.iskeyword@ == spec@,
            *final(self) == (Editor {
                settings: Settings {
                    iskeyword: final(self).settings.iskeyword,
                    ..old(self).settings
                },
                ..*old(self)
            }),
    {
        self.settings.iskeyword = spec.to_string();
    }

    /// The cursor shape of a mode: a bar while inserting, else a block.
    pub open spec fn shape_of(mode: VimMode) -> CursorShape {
        if mode is Insert {
            CursorShape::Bar
        } else {
            CursorShape::Block
        }
    }

    /// Asks the host for the cursor shape of the mode, where the mode is not
    /// the one for which it was last asked.
    pub fn emit_cursor_shape_if_changed(&mut self)
        ensures
            old(self).vim.mode == old(self).last_emitted_mode ==> *final(self) == *old(self),
            old(self).vim.mode != old(self).last_emitted_mode ==> {
                &&& final(self).host.shape() == Some(
                    Editor::<RopeBuffer, H>::shape_of(old(self).vim.mode),
                )
                &&& final(self).host.port() == old(self).host.port()
                &&& final(self).host.clipboard_text() == old(self).host.clipboard_text()
                &&& *final(self) == (Editor {
                    host: final(self).host,
                    last_emitted_mode: old(self).vim.mode,
                    ..*old(self)
                })
            },
    {
        let mode = self.vim.mode;
        if mode == self.last_emitted_mode {
            return;
        }
        let shape = if matches!(mode, VimMode::Insert) {
            CursorShape::Bar
        } else {
            CursorShape::Block
        };
        self.host.emit_cursor_shape(shape);
        self.last_emitted_mode = mode;
    }

    /// Hands yanked text to the host's clipboard and keeps it.
    pub fn record_yank_to_host(&mut self, t: String)
        ensures
            final(self).host.clipboard_text() == Some(t@),
            final(self).host.port() == old(self).host.port(),
            final(self).host.shape() == old(self).host.shape(),
            *final(self) == (Editor {
                host: final(self).host,
                last_yank: Some(t),
                ..*old(self)
            }),
    {
        self.host.write_clipboard(t.clone());
        self.last_yank = Some(t);
    }

    /// The column that vertical motions aim at.
    pub fn sticky_col(&self) -> (c: Option<usize>)
        ensures
            c == self.sticky_col,
    {
        self.sticky_col
    }

    /// Sets the column that vertical motions aim at.
    pub fn set_sticky_col(&mut self, col: Option<usize>)
        ensures
            *final(self) == (Editor { sticky_col: col, ..*old(self) }),
    {
        self.sticky_col = col;
    }

    /// The place that mark `c` remembers.
    pub fn mark(&self, c: char) -> (r: Option<(usize, usize)>)
        ensures
            r == if self.marks@.dom().contains(c) {
                Some(self.marks@[c])
            } else {
                None
            },
    {
        self.marks.get(c)
    }

    /// Makes mark `c` remember a place.
    pub fn set_mark(&mut self, c: char, pos: (usize, usize))
        ensures
            final(self).marks@ == old(self).marks@.insert(c, pos),
            *final(self) == (Editor { marks: final(self).marks, ..*old(self) }),
    {
        self.marks.set(c, pos);
    }

    /// Makes mark `c` remember nothing.
    pub fn clear_mark(&mut self, c: char)
        ensures
            final(self).marks@ == old(self).marks@.remove(c),
            *final(self) == (Editor { marks: final(self).marks, ..*old(self) }),
    {
        self.marks.remove(c);
    }

    /// The place that mark `c` remembers; the same as [`Editor::mark`].
    pub fn buffer_mark(&self, c: char) -> (r: Option<(usize, usize)>)
        ensures
            r == if self.marks@.dom().contains(c) {
                Some(self.marks@[c])
            } else {
                None
            },
    {
        self.marks.get(c)
    }

    /// All marks in order of their names.
    pub fn marks(&self) -> (v: Vec<(char, (usize, usize))>)
        ensures
            v@ == self.marks.list(),
            crate::marks::names_rise(v@),
            crate::marks::marks_map(v@) == self.marks@,
    {
        self.marks.to_vec()
    }

    /// The marks `a` to `z` in order.
    pub fn buffer_marks(&self) -> (v: Vec<(char, (usize, usize))>)
        ensures
            v@ == marks_of_case(self.marks.list(), true),
    {
        let all = self.marks.to_vec();
        marks_in_case(&all, true)
    }

    /// The marks `A` to `Z` in order.
    pub fn file_marks(&self) -> (v: Vec<(char, (usize, usize))>)
        ensures
            v@ == marks_of_case(self.marks.list(), false),
    {
        let all = self.marks.to_vec();
        marks_in_case(&all, false)
    }

    /// The place that the next jump back leads to.
    pub fn last_jump_back(&self) -> (r: Option<(usize, usize)>)
        ensures
            r == if self.vim.jump_back@.len() > 0 {
                Some(self.vim.jump_back@.last())
            } else {
                None
            },
    {
        let n: usize = self.vim.jump_back.len();
        if n > 0 {
            Some(self.vim.jump_back[n - 1])
        } else {
            None
        }
    }

    /// Where the last edit left the cursor.
    pub fn last_edit_pos(&self) -> (r: Option<(usize, usize)>)
        ensures
            r == self.vim.last_edit_pos,
    {
        self.vim.last_edit_pos
    }

    /// Notes a place to jump back to; there is nothing to jump forward to then.
    pub fn record_jump(&mut self, pos: (usize, usize))
        ensures
            final(self).vim.jump_back@ == VimState::jumps_with(old(self).vim.jump_back@, pos),
            final(self).vim.jump_fwd@ == Seq::<(usize, usize)>::empty(),
            *final(self) == (Editor {
                vim: VimState {
                    jump_back: final(self).vim.jump_back,
                    jump_fwd: final(self).vim.jump_fwd,
                    ..old(self).vim
                },
                ..*old(self)
            }),
    {
        self.vim.record_jump(pos);
    }

    /// Foldable row ranges as the host found them.
    pub fn syntax_fold_ranges(&self) -> (v: &Vec<(usize, usize)>)
        ensures
            *v == self.syntax_fold_ranges,
    {
        &self.syntax_fold_ranges
    }

    /// Installs the foldable row ranges.
    pub fn set_syntax_fold_ranges(&mut self, ranges: Vec<(usize, usize)>)
        ensures
            *final(self) == (Editor { syntax_fold_ranges: ranges, ..*old(self) }),
    {
        self.syntax_fold_ranges = ranges;
    }

    /// The settings.
    pub fn settings(&self) -> (s: &Settings)
        ensures
            *s == self.settings,
    {
        &self.settings
    }

    /// The settings, for changing them.
    pub fn settings_mut(&mut self) -> (s: &mut Settings)
        ensures
            *s == old(self).settings,
            *final(self) == (Editor { settings: *final(s), ..*old(self) }),
    {
        &mut self.settings
    }

    /// True when every edit is rejected.
    pub fn is_readonly(&self) -> (b: bool)
        ensures
            b == self.settings.readonly,
    {
        self.settings.readonly
    }

    /// The options that the settings stand for.
    pub fn current_options(&self) -> (o: Options)
        ensures
            o == settings::options_for(self.settings),
    {
        options_from_settings(&self.settings)
    }

    /// Sets the settings from options.
    pub fn apply_options(&mut self, opts: &Options)
        ensures
            *final(self) == (Editor {
                settings: settings::settings_for(*opts),
                ..*old(self)
            }),
    {
        self.settings = settings_from_options(opts);
    }

    /// The search state.
    pub fn search_state(&self) -> (s: &SearchState)
        ensures
            *s == self.search_state,
    {
        &self.search_state
    }

    /// The search state, for changing it.
    pub fn search_state_mut(&mut self) -> (s: &mut SearchState)
        ensures
            *s == old(self).search_state,
            *final(self) == (Editor { search_state: *final(s), ..*old(self) }),
    {
        &mut self.search_state
    }

    /// Sets or clears the active search pattern.
    pub fn set_search_pattern(&mut self, pattern: Option<regex::Regex>)
        ensures
            *final(self) == (Editor {
                search_state: SearchState { pattern, ..old(self).search_state },
                ..*old(self)
            }),
    {
        self.search_state.set_pattern(pattern);
    }

    /// The search prompt, while it is open.
    pub fn search_prompt(&self) -> (p: Option<&SearchPrompt>)
        ensures
            match p {
                Some(q) => self.vim.search_prompt == Some(*q),
                None => self.vim.search_prompt is None,
            },
    {
        match &self.vim.search_prompt {
            Some(p) => Some(p),
            None => None,
        }
    }

    /// The pattern last searched for.
    pub fn last_search(&self) -> (r: Option<&str>)
        ensures
            match (r, self.vim.last_search) {
                (Some(a), Some(b)) => a@ == b@,
                (None, None) => true,
                _ => false,
            },
    {
        match &self.vim.last_search {
            Some(t) => Some(t.as_str()),
            None => None,
        }
    }

    /// Whether the last search went forward.
    pub fn last_search_forward(&self) -> (b: bool)
        ensures
            b == self.vim.last_search_forward,
    {
        self.vim.last_search_forward
    }

    /// Sets the pattern last searched for and its direction.
    pub fn set_last_search(&mut self, t: Option<String>, forward: bool)
        ensures
            *final(self) == (Editor {
                vim: VimState { last_search: t, last_search_forward: forward, ..old(self).vim },
                ..*old(self)
            }),
    {
        self.vim.last_search = t;
        self.vim.last_search_forward = forward;
    }

    /// The mode.
    pub fn vim_mode(&self) -> (m: VimMode)
        ensures
            m == self.vim.mode,
    {
        self.vim.mode
    }

    /// Back to normal mode.
    pub fn force_normal(&mut self)
        ensures
            *final(self) == (Editor {
                vim: VimState { mode: VimMode::Normal, ..old(self).vim },
                ..*old(self)
            }),
    {
        self.vim.force_normal();
    }

    // ── Keys ────────────────────────────────────────────────────────

    /// The key event that an input stands for; `None` where there is nothing
    /// for the key machine to do. Once the key machine took the event, the
    /// host calls [`Editor::emit_cursor_shape_if_changed`].
    pub fn feed_input(&self, input: &PlannedInput) -> (r: Option<Input>)
        ensures
            r == input::key_event(*input),
    {
        input_to_key(input)
    }

    /// The key event that a terminal's key stands for; `None` where there is
    /// nothing for the key machine to do. Once the key machine took the event,
    /// the host calls [`Editor::emit_cursor_shape_if_changed`].
    pub fn handle_key(&self, key: TermKey, ctrl: bool, alt: bool, shift: bool) -> (r: Option<
        Input,
    >)
        ensures
            r == if input::key_for_term(key) == Key::Null {
                None
            } else {
                Some(Input { key: input::key_for_term(key), ctrl, alt, shift })
            },
    {
        let event = term_to_input(key, ctrl, alt, shift);
        if event.key == Key::Null {
            None
        } else {
            Some(event)
        }
    }

    // ── Registers ───────────────────────────────────────────────────

    /// The text of the unnamed register.
    pub fn yank(&self) -> (t: &str)
        ensures
            t@ == self.registers.unnamed.text@,
    {
        self.registers.unnamed.text.as_str()
    }

    /// The registers.
    pub fn registers(&self) -> (r: &Registers)
        ensures
            *r == self.registers,
    {
        &self.registers
    }

    /// Loads the host's clipboard into its register.
    pub fn sync_clipboard_register(&mut self, t: String, linewise: bool)
        ensures
            *final(self) == (Editor {
                registers: Registers { clip: Slot { text: t, linewise }, ..old(self).registers },
                ..*old(self)
            }),
    {
        self.registers.set_clipboard(t, linewise);
    }

    /// True when the next command will use the clipboard register.
    pub fn pending_register_is_clipboard(&self) -> (b: bool)
        ensures
            b == (self.vim.pending_register == Some('+') || self.vim.pending_register == Some(
                '*',
            )),
    {
        match self.vim.pending_register {
            Some(c) => c == '+' || c == '*',
            None => false,
        }
    }

    /// Replaces the unnamed register; it stays linewise or not as the last yank
    /// was.
    pub fn set_yank(&mut self, t: &str)
        ensures
            final(self).registers.unnamed.text@ == t@,
            *final(self) == (Editor {
                registers: Registers {
                    unnamed: Slot {
                        text: final(self).registers.unnamed.text,
                        linewise: old(self).vim.yank_linewise,
                    },
                    ..old(self).registers
                },
                ..*old(self)
            }),
    {
        self.registers.unnamed = Slot { text: t.to_string(), linewise: self.vim.yank_linewise };
    }

    /// Installs `t` as the text that the next paste takes; it is linewise where
    /// it ends with a line break.
    pub fn seed_yank(&mut self, t: String)
        ensures
            ({
                let linewise = t@.len() > 0 && t@.last() == '\n';
                *final(self) == (Editor {
                    vim: VimState { yank_linewise: linewise, ..old(self).vim },
                    registers: Registers {
                        unnamed: Slot { text: t, linewise },
                        ..old(self).registers
                    },
                    ..*old(self)
                })
            }),
    {
        let n: usize = text::char_count(t.as_str());
        let linewise = n > 0 && t.as_str().get_char(n - 1) == '\n';
        self.vim.yank_linewise = linewise;
        self.registers.unnamed = Slot { text: t, linewise };
    }

    /// Writes text into a named register, charwise; a name that is no letter
    /// is passed over, and so is one whose register is missing.
    pub fn set_named_register_text(&mut self, reg: char, t: String)
        ensures
            match registers::register_index(reg) {
                Some(i) if i < old(self).registers.named@.len() => {
                    &&& final(self).registers.named@ == old(self).registers.named@.update(
                        i,
                        Slot { text: t, linewise: false },
                    )
                    &&& *final(self) == (Editor {
                        registers: Registers {
                            named: final(self).registers.named,
                            ..old(self).registers
                        },
                        ..*old(self)
                    })
                },
                _ => *final(self) == *old(self),
            },
    {
        if let Some(i) = registers::letter_index(reg) {
            if i < self.registers.named.len() {
                self.registers.named.set(i, Slot { text: t, linewise: false });
            }
        }
    }

    /// Records yanked text: into the unnamed register, into `"0`, and into the
    /// register that was named for the command.
    pub fn record_yank(&mut self, t: String, linewise: bool)
        ensures
            registers::yanked(
                old(self).registers,
                final(self).registers,
                Slot { text: t, linewise },
                old(self).vim.pending_register,
            ),
            *final(self) == (Editor {
                vim: VimState { yank_linewise: linewise, pending_register: None, ..old(self).vim },
                registers: final(self).registers,
                ..*old(self)
            }),
    {
        self.vim.yank_linewise = linewise;
        let target = self.vim.pending_register;
        self.vim.pending_register = None;
        self.registers.record_yank(t, linewise, target);
    }

    /// Records deleted text: into the unnamed register, into the ring `"1` to
    /// `"9`, and into the register that was named for the command.
    pub fn record_delete(&mut self, t: String, linewise: bool)
        ensures
            registers::deleted(
                old(self).registers,
                final(self).registers,
                Slot { text: t, linewise },
                old(self).vim.pending_register,
            ),
            *final(self) == (Editor {
                vim: VimState { yank_linewise: linewise, pending_register: None, ..old(self).vim },
                registers: final(self).registers,
                ..*old(self)
            }),
    {
        self.vim.yank_linewise = linewise;
        let target = self.vim.pending_register;
        self.vim.pending_register = None;
        self.registers.record_delete(t, linewise, target);
    }

    // ── Requests and fold changes for the host ──────────────────────

    /// Fetches the pending request to the language server.
    pub fn take_lsp_intent(&mut self) -> (r: Option<LspIntent>)
        ensures
            r == old(self).pending_lsp,
            *final(self) == (Editor { pending_lsp: None, ..*old(self) }),
    {
        let r = self.pending_lsp;
        self.pending_lsp = None;
        r
    }

    /// Fetches the fold changes made since the last call.
    pub fn take_fold_ops(&mut self) -> (v: Vec<FoldOp>)
        ensures
            v@ == old(self).pending_fold_ops@,
            final(self).pending_fold_ops@ == Seq::<FoldOp>::empty(),
            *final(self) == (Editor {
                pending_fold_ops: final(self).pending_fold_ops,
                ..*old(self)
            }),
    {
        let mut v: Vec<FoldOp> = Vec::new();
        std::mem::swap(&mut v, &mut self.pending_fold_ops);
        v
    }

    /// Applies a fold change to the buffer and keeps it for the host.
    pub fn apply_fold_op(&mut self, op: FoldOp)
        ensures
            final(self).pending_fold_ops@ == old(self).pending_fold_ops@.push(op),
            folds::refolded(old(self).buffer, final(self).buffer, op),
            *final(self) == (Editor {
                pending_fold_ops: final(self).pending_fold_ops,
                buffer: final(self).buffer,
                ..*old(self)
            }),
    {
        self.pending_fold_ops.push(op);
        folds::apply_fold_op(&mut self.buffer, op);
    }
}

/// The marks of a buffer are those with a name from `a` to `z`, the marks of files
/// those with a name from `A` to `Z`; each is one of all marks, at the same place.
pub proof fn law_marks_by_case(
    s: Seq<(char, (usize, usize))>,
    lower: bool,
    m: (char, (usize, usize)),
)
    ensures
        marks_of_case(s, lower).contains(m) <==> s.contains(m) && if lower {
            'a' <= m.0 && m.0 <= 'z'
        } else {
            'A' <= m.0 && m.0 <= 'Z'
        },
    decreases s.len(),
{
    if s.len() > 0 {
        let before = s.drop_last();
        let head = marks_of_case(before, lower);
        let all = marks_of_case(s, lower);
        law_marks_by_case(before, lower, m);
        assert(s[s.len() - 1] == s.last());
        if s.contains(m) {
            let i = s.index_of(m);
            if i < before.len() {
                assert(before[i] == m);
            }
        }
        if before.contains(m) {
            assert(s[before.index_of(m)] == m);
        }
        if head.contains(m) {
            assert(all[head.index_of(m)] == m);
        }
        if all.contains(m) {
            let k = all.index_of(m);
            if k < head.len() {
                assert(head[k] == m);
            }
        }
        if all.len() > head.len() {
            assert(all[all.len() - 1] == s.last());
        }
    }
}

/// The cursor is a bar while text is inserted and a block in every other mode.
pub proof fn law_cursor_shapes<H: Host>(mode: VimMode)
    ensures
        Editor::<RopeBuffer, H>::shape_of(mode) == CursorShape::Bar <==> mode == VimMode::Insert,
        Editor::<RopeBuffer, H>::shape_of(mode) == CursorShape::Block <==> mode != VimMode::Insert,
{
}

} // verus!
