//! Live settings of an editor, and how they follow the options.
use vstd::prelude::*;

use crate::buffer::Wrap;
use crate::options::{Options, WrapMode};
use crate::types::Duration;

verus! {

/// Live settings.
#[derive(Debug)]
pub struct Settings {
    /// Spaces per shift step.
    pub shiftwidth: usize,
    /// Display width of a tab.
    pub tabstop: usize,
    /// Search ignores case.
    pub ignore_case: bool,
    /// An uppercase letter in the pattern makes the search mind case again.
    pub smartcase: bool,
    /// Searches wrap around the buffer ends.
    pub wrapscan: bool,
    /// Wrap column of text reflow.
    pub textwidth: usize,
    /// Insert spaces for the Tab key.
    pub expandtab: bool,
    /// Soft-wrap mode.
    pub wrap: Wrap,
    /// Reject every edit.
    pub readonly: bool,
    /// A new line starts with the blanks of the one before.
    pub autoindent: bool,
    /// Maximum depth of the undo history; 0 for no limit.
    pub undo_levels: u32,
    /// A cursor motion in insert mode ends the undo group.
    pub undo_break_on_motion: bool,
    /// Characters that belong to a word.
    pub iskeyword: String,
    /// Timeout of multi-key sequences.
    pub timeout_len: Duration,
}

impl Clone for Settings {
    fn clone(&self) -> (s: Settings)
        ensures
            s == *self,
    {
        Settings {
            shiftwidth: self.shiftwidth,
            tabstop: self.tabstop,
            ignore_case: self.ignore_case,
            smartcase: self.smartcase,
            wrapscan: self.wrapscan,
            textwidth: self.textwidth,
            expandtab: self.expandtab,
            wrap: self.wrap,
            readonly: self.readonly,
            autoindent: self.autoindent,
            undo_levels: self.undo_levels,
            undo_break_on_motion: self.undo_break_on_motion,
            iskeyword: self.iskeyword.clone(),
            timeout_len: self.timeout_len,
        }
    }
}

impl Default for Settings {
    fn default() -> (s: Settings)
        ensures
            s.shiftwidth == 2,
            s.tabstop == 8,
            !s.ignore_case,
            !s.smartcase,
            s.wrapscan,
            s.textwidth == 79,
            !s.expandtab,
            s.wrap is Off,
            !s.readonly,
            s.autoindent,
            s.undo_levels == 1000,
            s.undo_break_on_motion,
            s.iskeyword@ == "@,48-57,_,192-255"@,
            s.timeout_len.nanos == 1_000_000_000,
    {
        Settings {
            shiftwidth: 2,
            tabstop: 8,
            ignore_case: false,
            smartcase: false,
            wrapscan: true,
            textwidth: 79,
            expandtab: false,
            wrap: Wrap::Off,
            readonly: false,
            autoindent: true,
            undo_levels: 1000,
            undo_break_on_motion: true,
            iskeyword: "@,48-57,_,192-255".to_string(),
            timeout_len: Duration::from_millis(1000),
        }
    }
}

/// The buffer's wrap mode for an option's.
pub open spec fn wrap_of(m: WrapMode) -> Wrap {
    match m {
        WrapMode::Off => Wrap::Off,
        WrapMode::Char => Wrap::Char,
        WrapMode::Word => Wrap::Word,
    }
}

/// The option's wrap mode for a buffer's.
pub open spec fn wrap_mode_of(w: Wrap) -> WrapMode {
    match w {
        Wrap::Off => WrapMode::Off,
        Wrap::Char => WrapMode::Char,
        Wrap::Word => WrapMode::Word,
    }
}

/// The settings that options ask for. Options about highlighting have no
/// setting.
pub open spec fn settings_for(o: Options) -> Settings {
    Settings {
        shiftwidth: o.shiftwidth as usize,
        tabstop: o.tabstop as usize,
        ignore_case: o.ignorecase,
        smartcase: o.smartcase,
        wrapscan: o.wrapscan,
        textwidth: o.textwidth as usize,
        expandtab: o.expandtab,
        wrap: wrap_of(o.wrap),
        readonly: o.readonly,
        autoindent: o.autoindent,
        undo_levels: o.undo_levels,
        undo_break_on_motion: o.undo_break_on_motion,
        iskeyword: o.iskeyword,
        timeout_len: o.timeout_len,
    }
}

/// The options that settings stand for. Options without a setting have their
/// defaults.
pub open spec fn options_for(s: Settings) -> Options {
    Options {
        tabstop: s.tabstop as u32,
        shiftwidth: s.shiftwidth as u32,
        expandtab: s.expandtab,
        iskeyword: s.iskeyword,
        ignorecase: s.ignore_case,
        smartcase: s.smartcase,
        hlsearch: true,
        incsearch: true,
        wrapscan: s.wrapscan,
        autoindent: s.autoindent,
        timeout_len: s.timeout_len,
        undo_levels: s.undo_levels,
        undo_break_on_motion: s.undo_break_on_motion,
        readonly: s.readonly,
        wrap: wrap_mode_of(s.wrap),
        textwidth: s.textwidth as u32,
    }
}

/// The settings that options ask for.
pub fn settings_from_options(o: &Options) -> (s: Settings)
    ensures
        s == settings_for(*o),
{
    Settings {
        shiftwidth: o.shiftwidth as usize,
        tabstop: o.tabstop as usize,
        ignore_case: o.ignorecase,
        smartcase: o.smartcase,
        wrapscan: o.wrapscan,
        textwidth: o.textwidth as usize,
        expandtab: o.expandtab,
        wrap: match o.wrap {
            WrapMode::Off => Wrap::Off,
            WrapMode::Char => Wrap::Char,
            WrapMode::Word => Wrap::Word,
        },
        readonly: o.readonly,
        autoindent: o.autoindent,
        undo_levels: o.undo_levels,
        undo_break_on_motion: o.undo_break_on_motion,
        iskeyword: o.iskeyword.clone(),
        timeout_len: o.timeout_len,
    }
}

/// The options that settings stand for.
pub fn options_from_settings(s: &Settings) -> (o: Options)
    ensures
        o == options_for(*s),
{
    Options {
        tabstop: s.tabstop as u32,
        shiftwidth: s.shiftwidth as u32,
        expandtab: s.expandtab,
        iskeyword: s.iskeyword.clone(),
        ignorecase: s.ignore_case,
        smartcase: s.smartcase,
        hlsearch: true,
        incsearch: true,
        wrapscan: s.wrapscan,
        autoindent: s.autoindent,
        timeout_len: s.timeout_len,
        undo_levels: s.undo_levels,
        undo_break_on_motion: s.undo_break_on_motion,
        readonly: s.readonly,
        wrap: match s.wrap {
            Wrap::Off => WrapMode::Off,
            Wrap::Char => WrapMode::Char,
            Wrap::Word => WrapMode::Word,
        },
        textwidth: s.textwidth as u32,
    }
}

/// Options that were applied can be read back, but for those that have no
/// setting.
pub proof fn law_options_round_trip(o: Options)
    ensures
        options_for(settings_for(o)) == (Options { hlsearch: true, incsearch: true, ..o }),
{
}

} // verus!
