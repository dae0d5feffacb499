//! Editor options: typed values that can be set and read by name.
use vstd::prelude::*;

use crate::text;
use crate::text::{push_integer, quoted, same_text};
use crate::types::{Duration, EngineError};

verus! {

/// Soft-wrap mode of the renderer, of scrolling and of screen-line motions.
#[derive(Debug, Default, Clone, Copy, PartialEq, Eq, Structural, Hash)]
pub enum WrapMode {
    /// Long lines run past the right edge.
    #[default]
    Off,
    /// Break at the cell boundary.
    Char,
    /// Break after the last blank that fits.
    Word,
}

/// Editor options.
#[derive(Debug, PartialEq, Eq)]
pub struct Options {
    /// Display width of a tab.
    pub tabstop: u32,
    /// Spaces per shift step.
    pub shiftwidth: u32,
    /// Insert spaces for the Tab key.
    pub expandtab: bool,
    /// Characters that belong to a word.
    pub iskeyword: String,
    /// Search ignores case.
    pub ignorecase: bool,
    /// An uppercase letter in the pattern makes the search mind case again.
    pub smartcase: bool,
    /// Highlight all matches of the last search.
    pub hlsearch: bool,
    /// Highlight matches while the pattern is typed.
    pub incsearch: bool,
    /// Searches wrap around the buffer ends.
    pub wrapscan: bool,
    /// A new line starts with the blanks of the one before.
    pub autoindent: bool,
    /// Timeout of multi-key sequences.
    pub timeout_len: Duration,
    /// Maximum depth of the undo history.
    pub undo_levels: u32,
    /// A cursor motion in insert mode ends the undo group.
    pub undo_break_on_motion: bool,
    /// Reject every edit.
    pub readonly: bool,
    /// Soft-wrap mode.
    pub wrap: WrapMode,
    /// Wrap column of text reflow.
    pub textwidth: u32,
}

/// The value of an option.
#[derive(Debug, PartialEq, Eq)]
pub enum OptionValue {
    Bool(bool),
    Int(i64),
    String(String),
}

impl Clone for OptionValue {
    fn clone(&self) -> (v: OptionValue)
        ensures
            v == *self,
    {
        match self {
            OptionValue::Bool(b) => OptionValue::Bool(*b),
            OptionValue::Int(n) => OptionValue::Int(*n),
            OptionValue::String(s) => OptionValue::String(s.clone()),
        }
    }
}

impl Clone for Options {
    fn clone(&self) -> (o: Options)
        ensures
            o == *self,
    {
        Options {
            tabstop: self.tabstop,
            shiftwidth: self.shiftwidth,
            expandtab: self.expandtab,
            iskeyword: self.iskeyword.clone(),
            ignorecase: self.ignorecase,
            smartcase: self.smartcase,
            hlsearch: self.hlsearch,
            incsearch: self.incsearch,
            wrapscan: self.wrapscan,
            autoindent: self.autoindent,
            timeout_len: self.timeout_len,
            undo_levels: self.undo_levels,
            undo_break_on_motion: self.undo_break_on_motion,
            readonly: self.readonly,
            wrap: self.wrap,
            textwidth: self.textwidth,
        }
    }
}

impl Default for Options {
    fn default() -> (o: Options)
        ensures
            o.tabstop == 8,
            o.shiftwidth == 8,
            !o.expandtab,
            o.iskeyword@ == "@,48-57,_,192-255"@,
            !o.ignorecase,
            !o.smartcase,
            o.hlsearch,
            o.incsearch,
            o.wrapscan,
            o.autoindent,
            o.timeout_len.nanos == 1_000_000_000,
            o.undo_levels == 1000,
            o.undo_break_on_motion,
            !o.readonly,
            o.wrap is Off,
            o.textwidth == 79,
    {
        Options {
            tabstop: 8,
            shiftwidth: 8,
            expandtab: false,
            iskeyword: "@,48-57,_,192-255".to_string(),
            ignorecase: false,
            smartcase: false,
            hlsearch: true,
            incsearch: true,
            wrapscan: true,
            autoindent: true,
            timeout_len: Duration::from_millis(1000),
            undo_levels: 1000,
            undo_break_on_motion: true,
            readonly: false,
            wrap: WrapMode::Off,
            textwidth: 79,
        }
    }
}

/// Which option a name stands for.
#[derive(Debug, Clone, Copy, PartialEq, Eq, Structural)]
pub enum OptionKey {
    Tabstop,
    Shiftwidth,
    Textwidth,
    Expandtab,
    Iskeyword,
    Ignorecase,
    Smartcase,
    Hlsearch,
    Incsearch,
    Wrapscan,
    Autoindent,
    Timeoutlen,
    Undolevels,
    Undobreak,
    Readonly,
    Wrap,
    Linebreak,
}

/// The option that a name, long or short, stands for.
pub open spec fn key_of(name: Seq<char>) -> Option<OptionKey> {
    if name == "tabstop"@ || name == "ts"@ {
        Some(OptionKey::Tabstop)
    } else if name == "shiftwidth"@ || name == "sw"@ {
        Some(OptionKey::Shiftwidth)
    } else if name == "textwidth"@ || name == "tw"@ {
        Some(OptionKey::Textwidth)
    } else if name == "expandtab"@ || name == "et"@ {
        Some(OptionKey::Expandtab)
    } else if name == "iskeyword"@ || name == "isk"@ {
        Some(OptionKey::Iskeyword)
    } else if name == "ignorecase"@ || name == "ic"@ {
        Some(OptionKey::Ignorecase)
    } else if name == "smartcase"@ || name == "scs"@ {
        Some(OptionKey::Smartcase)
    } else if name == "hlsearch"@ || name == "hls"@ {
        Some(OptionKey::Hlsearch)
    } else if name == "incsearch"@ || name == "is"@ {
        Some(OptionKey::Incsearch)
    } else if name == "wrapscan"@ || name == "ws"@ {
        Some(OptionKey::Wrapscan)
    } else if name == "autoindent"@ || name == "ai"@ {
        Some(OptionKey::Autoindent)
    } else if name == "timeoutlen"@ || name == "tm"@ {
        Some(OptionKey::Timeoutlen)
    } else if name == "undolevels"@ || name == "ul"@ {
        Some(OptionKey::Undolevels)
    } else if name == "undobreak"@ {
        Some(OptionKey::Undobreak)
    } else if name == "readonly"@ || name == "ro"@ {
        Some(OptionKey::Readonly)
    } else if name == "wrap"@ {
        Some(OptionKey::Wrap)
    } else if name == "linebreak"@ || name == "lbr"@ {
        Some(OptionKey::Linebreak)
    } else {
        None
    }
}

/// A value read as a switch: a number other than zero is on.
pub open spec fn as_bool(val: OptionValue) -> Option<bool> {
    match val {
        OptionValue::Bool(b) => Some(b),
        OptionValue::Int(n) => Some(n != 0),
        OptionValue::String(_) => None,
    }
}

/// A value read as a number that fits in 32 bits.
pub open spec fn as_u32(val: OptionValue) -> Option<u32> {
    match val {
        OptionValue::Int(n) => if 0 <= n <= u32::MAX {
            Some(n as u32)
        } else {
            None
        },
        _ => None,
    }
}

/// The wrap mode after `wrap` is switched: on keeps word breaks.
pub open spec fn wrap_set(m: WrapMode, on: bool) -> WrapMode {
    if !on {
        WrapMode::Off
    } else if m is Word {
        WrapMode::Word
    } else {
        WrapMode::Char
    }
}

/// The wrap mode after `linebreak` is switched: off falls back to cell breaks.
pub open spec fn linebreak_set(m: WrapMode, on: bool) -> WrapMode {
    if on {
        WrapMode::Word
    } else if m is Word {
        WrapMode::Char
    } else {
        m
    }
}

/// The options with one of them set, where the value has the right type.
pub open spec fn option_set(o: Options, key: OptionKey, val: OptionValue) -> Option<Options> {
    match key {
        OptionKey::Tabstop => match as_u32(val) {
            Some(n) => Some(Options { tabstop: n, ..o }),
            None => None,
        },
        OptionKey::Shiftwidth => match as_u32(val) {
            Some(n) => Some(Options { shiftwidth: n, ..o }),
            None => None,
        },
        OptionKey::Textwidth => match as_u32(val) {
            Some(n) => Some(Options { textwidth: n, ..o }),
            None => None,
        },
        OptionKey::Expandtab => match as_bool(val) {
            Some(b) => Some(Options { expandtab: b, ..o }),
            None => None,
        },
        OptionKey::Iskeyword => match val {
            OptionValue::String(s) => Some(Options { iskeyword: s, ..o }),
            _ => None,
        },
        OptionKey::Ignorecase => match as_bool(val) {
            Some(b) => Some(Options { ignorecase: b, ..o }),
            None => None,
        },
        OptionKey::Smartcase => match as_bool(val) {
            Some(b) => Some(Options { smartcase: b, ..o }),
            None => None,
        },
        OptionKey::Hlsearch => match as_bool(val) {
            Some(b) => Some(Options { hlsearch: b, ..o }),
            None => None,
        },
        OptionKey::Incsearch => match as_bool(val) {
            Some(b) => Some(Options { incsearch: b, ..o }),
            None => None,
        },
        OptionKey::Wrapscan => match as_bool(val) {
            Some(b) => Some(Options { wrapscan: b, ..o }),
            None => None,
        },
        OptionKey::Autoindent => match as_bool(val) {
            Some(b) => Some(Options { autoindent: b, ..o }),
            None => None,
        },
        OptionKey::Timeoutlen => match val {
            OptionValue::Int(n) => if n >= 0 {
                Some(Options { timeout_len: Duration { nanos: (n * 1_000_000) as u128 }, ..o })
            } else {
                None
            },
            _ => None,
        },
        OptionKey::Undolevels => match as_u32(val) {
            Some(n) => Some(Options { undo_levels: n, ..o }),
            None => None,
        },
        OptionKey::Undobreak => match as_bool(val) {
            Some(b) => Some(Options { undo_break_on_motion: b, ..o }),
            None => None,
        },
        OptionKey::Readonly => match as_bool(val) {
            Some(b) => Some(Options { readonly: b, ..o }),
            None => None,
        },
        OptionKey::Wrap => match as_bool(val) {
            Some(b) => Some(Options { wrap: wrap_set(o.wrap, b), ..o }),
            None => None,
        },
        OptionKey::Linebreak => match as_bool(val) {
            Some(b) => Some(Options { wrap: linebreak_set(o.wrap, b), ..o }),
            None => None,
        },
    }
}

/// The value of one option.
pub open spec fn option_get(o: Options, key: OptionKey) -> OptionValue {
    match key {
        OptionKey::Tabstop => OptionValue::Int(o.tabstop as i64),
        OptionKey::Shiftwidth => OptionValue::Int(o.shiftwidth as i64),
        OptionKey::Textwidth => OptionValue::Int(o.textwidth as i64),
        OptionKey::Expandtab => OptionValue::Bool(o.expandtab),
        OptionKey::Iskeyword => OptionValue::String(o.iskeyword),
        OptionKey::Ignorecase => OptionValue::Bool(o.ignorecase),
        OptionKey::Smartcase => OptionValue::Bool(o.smartcase),
        OptionKey::Hlsearch => OptionValue::Bool(o.hlsearch),
        OptionKey::Incsearch => OptionValue::Bool(o.incsearch),
        OptionKey::Wrapscan => OptionValue::Bool(o.wrapscan),
        OptionKey::Autoindent => OptionValue::Bool(o.autoindent),
        OptionKey::Timeoutlen => OptionValue::Int((o.timeout_len.nanos / 1_000_000) as i64),
        OptionKey::Undolevels => OptionValue::Int(o.undo_levels as i64),
        OptionKey::Undobreak => OptionValue::Bool(o.undo_break_on_motion),
        OptionKey::Readonly => OptionValue::Bool(o.readonly),
        OptionKey::Wrap => OptionValue::Bool(!(o.wrap is Off)),
        OptionKey::Linebreak => OptionValue::Bool(o.wrap is Word),
    }
}

/// What kind of value an option takes.
pub open spec fn wanted(key: OptionKey) -> Seq<char> {
    match key {
        OptionKey::Tabstop => "int"@,
        OptionKey::Shiftwidth => "int"@,
        OptionKey::Textwidth => "int"@,
        OptionKey::Iskeyword => "string"@,
        OptionKey::Timeoutlen => "non-negative int (millis)"@,
        OptionKey::Undolevels => "int"@,
        _ => "bool"@,
    }
}

/// A value as error messages show it.
pub open spec fn shown(val: OptionValue) -> Seq<char> {
    match val {
        OptionValue::Bool(b) => if b {
            "Bool(true)"@
        } else {
            "Bool(false)"@
        },
        OptionValue::Int(n) => "Int("@ + text::decimal(n as int) + ")"@,
        OptionValue::String(s) => "String("@ + text::debug_text(s@) + ")"@,
    }
}

/// True for the options that hold a 32-bit number.
pub open spec fn is_number(key: OptionKey) -> bool {
    key is Tabstop || key is Shiftwidth || key is Textwidth || key is Undolevels
}

/// The message for a value that an option does not take.
pub open spec fn mismatch_text(name: Seq<char>, key: OptionKey, val: OptionValue) -> Seq<char> {
    if is_number(key) && val is Int {
        "option `"@ + name + "` out of u32 range: "@ + text::decimal(val->Int_0 as int)
    } else {
        "option `"@ + name + "` expects "@ + wanted(key) + ", got "@ + shown(val)
    }
}

/// What setting an option by its name does.
pub open spec fn option_told(
    b: Options,
    a: Options,
    name: Seq<char>,
    val: OptionValue,
    r: Result<(), EngineError>,
) -> bool {
    match key_of(name) {
        None => {
            &&& a == b
            &&& r matches Err(EngineError::Ex(m)) && m@ == "unknown option `"@ + name + "`"@
        },
        Some(key) => match option_set(b, key, val) {
            Some(o) => r is Ok && a == o,
            None => {
                &&& a == b
                &&& r matches Err(EngineError::Ex(m)) && m@ == mismatch_text(name, key, val)
            },
        },
    }
}

fn key_for(name: &str) -> (k: Option<OptionKey>)
    ensures
        k == key_of(name@),
{
    if same_text(name, "tabstop") || same_text(name, "ts") {
        Some(OptionKey::Tabstop)
    } else if same_text(name, "shiftwidth") || same_text(name, "sw") {
        Some(OptionKey::Shiftwidth)
    } else if same_text(name, "textwidth") || same_text(name, "tw") {
        Some(OptionKey::Textwidth)
    } else if same_text(name, "expandtab") || same_text(name, "et") {
        Some(OptionKey::Expandtab)
    } else if same_text(name, "iskeyword") || same_text(name, "isk") {
        Some(OptionKey::Iskeyword)
    } else if same_text(name, "ignorecase") || same_text(name, "ic") {
        Some(OptionKey::Ignorecase)
    } else if same_text(name, "smartcase") || same_text(name, "scs") {
        Some(OptionKey::Smartcase)
    } else if same_text(name, "hlsearch") || same_text(name, "hls") {
        Some(OptionKey::Hlsearch)
    } else if same_text(name, "incsearch") || same_text(name, "is") {
        Some(OptionKey::Incsearch)
    } else if same_text(name, "wrapscan") || same_text(name, "ws") {
        Some(OptionKey::Wrapscan)
    } else if same_text(name, "autoindent") || same_text(name, "ai") {
        Some(OptionKey::Autoindent)
    } else if same_text(name, "timeoutlen") || same_text(name, "tm") {
        Some(OptionKey::Timeoutlen)
    } else if same_text(name, "undolevels") || same_text(name, "ul") {
        Some(OptionKey::Undolevels)
    } else if same_text(name, "undobreak") {
        Some(OptionKey::Undobreak)
    } else if same_text(name, "readonly") || same_text(name, "ro") {
        Some(OptionKey::Readonly)
    } else if same_text(name, "wrap") {
        Some(OptionKey::Wrap)
    } else if same_text(name, "linebreak") || same_text(name, "lbr") {
        Some(OptionKey::Linebreak)
    } else {
        None
    }
}

fn bool_value(val: &OptionValue) -> (b: Option<bool>)
    ensures
        b == as_bool(*val),
{
    match val {
        OptionValue::Bool(b) => Some(*b),
        OptionValue::Int(n) => Some(*n != 0),
        OptionValue::String(_) => None,
    }
}

fn u32_value(val: &OptionValue) -> (n: Option<u32>)
    ensures
        n == as_u32(*val),
{
    match val {
        OptionValue::Int(n) => if 0 <= *n && *n <= 0xffff_ffff {
            Some(*n as u32)
        } else {
            None
        },
        _ => None,
    }
}

fn push_wanted(out: &mut String, key: OptionKey)
    ensures
        final(out)@ == old(out)@ + wanted(key),
{
    match key {
        OptionKey::Tabstop | OptionKey::Shiftwidth | OptionKey::Textwidth
        | OptionKey::Undolevels => out.push_str("int"),
        OptionKey::Iskeyword => out.push_str("string"),
        OptionKey::Timeoutlen => out.push_str("non-negative int (millis)"),
        _ => out.push_str("bool"),
    }
}

fn push_shown(out: &mut String, val: &OptionValue)
    ensures
        final(out)@ == old(out)@ + shown(*val),
{
    match val {
        OptionValue::Bool(b) => if *b {
            out.push_str("Bool(true)");
        } else {
            out.push_str("Bool(false)");
        },
        OptionValue::Int(n) => {
            out.push_str("Int(");
            push_integer(out, *n);
            out.push_str(")");
            assert(out@ =~= old(out)@ + shown(*val));
        },
        OptionValue::String(s) => {
            out.push_str("String(");
            let q = quoted(s.as_str());
            out.push_str(q.as_str());
            out.push_str(")");
            assert(out@ =~= old(out)@ + shown(*val));
        },
    }
}

/// The error for a value that an option does not take.
fn mismatch(name: &str, key: OptionKey, val: &OptionValue) -> (e: EngineError)
    ensures
        e matches EngineError::Ex(m) && m@ == mismatch_text(name@, key, *val),
{
    let mut out = String::new();
    out.push_str("option `");
    out.push_str(name);
    let number = match key {
        OptionKey::Tabstop | OptionKey::Shiftwidth | OptionKey::Textwidth
        | OptionKey::Undolevels => true,
        _ => false,
    };
    if number {
        if let OptionValue::Int(n) = val {
            out.push_str("` out of u32 range: ");
            push_integer(&mut out, *n);
            assert(out@ =~= mismatch_text(name@, key, *val));
            return EngineError::Ex(out);
        }
    }
    out.push_str("` expects ");
    push_wanted(&mut out, key);
    out.push_str(", got ");
    push_shown(&mut out, val);
    assert(out@ =~= mismatch_text(name@, key, *val));
    EngineError::Ex(out)
}

impl Options {
    /// Sets one option, or hands the value back where it has the wrong type.
    #[verifier::spinoff_prover]
    #[verifier::rlimit(60)]
    fn set_key(&mut self, key: OptionKey, val: OptionValue) -> (r: Result<(), OptionValue>)
        ensures
            match option_set(*old(self), key, val) {
                Some(o) => r is Ok && *final(self) == o,
                None => *final(self) == *old(self) && r == Err::<(), OptionValue>(val),
            },
    {
        match key {
            OptionKey::Tabstop => match self::u32_value(&val) {
                Some(n) => {
                    self.tabstop = n;
                },
                None => return Err(val),
            },
            OptionKey::Shiftwidth => match self::u32_value(&val) {
                Some(n) => {
                    self.shiftwidth = n;
                },
                None => return Err(val),
            },
            OptionKey::Textwidth => match self::u32_value(&val) {
                Some(n) => {
                    self.textwidth = n;
                },
                None => return Err(val),
            },
            OptionKey::Expandtab => match self::bool_value(&val) {
                Some(b) => {
                    self.expandtab = b;
                },
                None => return Err(val),
            },
            OptionKey::Iskeyword => match val {
                OptionValue::String(s) => {
                    self.iskeyword = s;
                },
                other => return Err(other),
            },
            OptionKey::Ignorecase => match self::bool_value(&val) {
                Some(b) => {
                    self.ignorecase = b;
                },
                None => return Err(val),
            },
            OptionKey::Smartcase => match self::bool_value(&val) {
                Some(b) => {
                    self.smartcase = b;
                },
                None => return Err(val),
            },
            OptionKey::Hlsearch => match self::bool_value(&val) {
                Some(b) => {
                    self.hlsearch = b;
                },
                None => return Err(val),
            },
            OptionKey::Incsearch => match self::bool_value(&val) {
                Some(b) => {
                    self.incsearch = b;
                },
                None => return Err(val),
            },
            OptionKey::Wrapscan => match self::bool_value(&val) {
                Some(b) => {
                    self.wrapscan = b;
                },
                None => return Err(val),
            },
            OptionKey::Autoindent => match self::bool_value(&val) {
                Some(b) => {
                    self.autoindent = b;
                },
                None => return Err(val),
            },
            OptionKey::Timeoutlen => match val {
                OptionValue::Int(n) => {
                    if n < 0 {
                        return Err(OptionValue::Int(n));
                    }
                    self.timeout_len = Duration::from_millis(n as u64);
                },
                other => return Err(other),
            },
            OptionKey::Undolevels => match self::u32_value(&val) {
                Some(n) => {
                    self.undo_levels = n;
                },
                None => return Err(val),
            },
            OptionKey::Undobreak => match self::bool_value(&val) {
                Some(b) => {
                    self.undo_break_on_motion = b;
                },
                None => return Err(val),
            },
            OptionKey::Readonly => match self::bool_value(&val) {
                Some(b) => {
                    self.readonly = b;
                },
                None => return Err(val),
            },
            OptionKey::Wrap => match self::bool_value(&val) {
                Some(on) => {
                    self.wrap = match (on, self.wrap) {
                        (false, _) => WrapMode::Off,
                        (true, WrapMode::Word) => WrapMode::Word,
                        (true, _) => WrapMode::Char,
                    };
                },
                None => return Err(val),
            },
            OptionKey::Linebreak => match self::bool_value(&val) {
                Some(on) => {
                    self.wrap = match (on, self.wrap) {
                        (true, _) => WrapMode::Word,
                        (false, WrapMode::Word) => WrapMode::Char,
                        (false, other) => other,
                    };
                },
                None => return Err(val),
            },
        }
        Ok(())
    }

    /// Sets an option by its name. A switch takes a boolean or a number, a
    /// number takes a number, a string takes a string; a name that no option
    /// has and a value of another type are errors and change nothing.
    pub fn set_by_name(&mut self, name: &str, val: OptionValue) -> (r: Result<(), EngineError>)
        ensures
            option_told(*old(self), *final(self), name@, val, r),
    {
        let key = match key_for(name) {
            Some(k) => k,
            None => {
                let mut out = String::new();
                out.push_str("unknown option `");
                out.push_str(name);
                out.push_str("`");
                assert(out@ =~= "unknown option `"@ + name@ + "`"@);
                return Err(EngineError::Ex(out));
            },
        };
        match self.set_key(key, val) {
            Ok(()) => Ok(()),
            Err(back) => Err(mismatch(name, key, &back)),
        }
    }

    /// The value of the option with the given name.
    pub fn get_by_name(&self, name: &str) -> (r: Option<OptionValue>)
        ensures
            r == match key_of(name@) {
                None => None,
                Some(key) => Some(option_get(*self, key)),
            },
    {
        let o = self;
        let key = match key_for(name) {
            Some(k) => k,
            None => return None,
        };
        Some(
            match key {
                OptionKey::Tabstop => OptionValue::Int(o.tabstop as i64),
                OptionKey::Shiftwidth => OptionValue::Int(o.shiftwidth as i64),
                OptionKey::Textwidth => OptionValue::Int(o.textwidth as i64),
                OptionKey::Expandtab => OptionValue::Bool(o.expandtab),
                OptionKey::Iskeyword => OptionValue::String(o.iskeyword.clone()),
                OptionKey::Ignorecase => OptionValue::Bool(o.ignorecase),
                OptionKey::Smartcase => OptionValue::Bool(o.smartcase),
                OptionKey::Hlsearch => OptionValue::Bool(o.hlsearch),
                OptionKey::Incsearch => OptionValue::Bool(o.incsearch),
                OptionKey::Wrapscan => OptionValue::Bool(o.wrapscan),
                OptionKey::Autoindent => OptionValue::Bool(o.autoindent),
                OptionKey::Timeoutlen => OptionValue::Int(o.timeout_len.as_millis() as i64),
                OptionKey::Undolevels => OptionValue::Int(o.undo_levels as i64),
                OptionKey::Undobreak => OptionValue::Bool(o.undo_break_on_motion),
                OptionKey::Readonly => OptionValue::Bool(o.readonly),
                OptionKey::Wrap => OptionValue::Bool(!matches!(o.wrap, WrapMode::Off)),
                OptionKey::Linebreak => OptionValue::Bool(matches!(o.wrap, WrapMode::Word)),
            },
        )
    }
}

/// What was set can be read back: a switch as a boolean, every other option as
/// the value that was given.
pub proof fn law_set_then_get(o: Options, key: OptionKey, val: OptionValue)
    requires
        option_set(o, key, val) is Some,
    ensures
        option_get(option_set(o, key, val)->0, key) == if is_number(key) || key is Timeoutlen
            || key is Iskeyword {
            val
        } else {
            OptionValue::Bool(as_bool(val)->0)
        },
{
}

/// Setting an option leaves every other one alone, but for `wrap` and
/// `linebreak`, which share one mode.
#[verifier::spinoff_prover]
#[verifier::rlimit(50)]
pub proof fn law_set_leaves_others(o: Options, key: OptionKey, val: OptionValue, other: OptionKey)
    requires
        option_set(o, key, val) is Some,
        other != key,
        !((key is Wrap || key is Linebreak) && (other is Wrap || other is Linebreak)),
    ensures
        option_get(option_set(o, key, val)->0, other) == option_get(o, other),
{
}

/// Line breaks at blanks are a way of wrapping: switching `linebreak` on
/// switches `wrap` on, and switching `wrap` off switches `linebreak` off.
pub proof fn law_linebreak_wraps(o: Options, val: OptionValue)
    requires
        as_bool(val) is Some,
    ensures
        as_bool(val)->0 ==> option_get(
            option_set(o, OptionKey::Linebreak, val)->0,
            OptionKey::Wrap,
        ) == OptionValue::Bool(true),
        !as_bool(val)->0 ==> option_get(
            option_set(o, OptionKey::Wrap, val)->0,
            OptionKey::Linebreak,
        ) == OptionValue::Bool(false),
{
}

} // verus!
