//! What the names of options promise: which setting each of them reaches, and
//! which values it takes.
use vstd::prelude::*;

use crate::options;
use crate::options::{OptionKey, OptionValue, Options};
use crate::settings;
use crate::settings::Settings;
use crate::text;
use crate::types::EngineError;

verus! {

/// A name is one of two.
pub open spec fn either(name: Seq<char>, long: Seq<char>, short: Seq<char>) -> bool {
    name == long || name == short
}

/// A switch was told a value: it takes every value but a string, and is on for a
/// true one and for a number other than zero.
pub open spec fn switched(val: OptionValue, ok: bool, on: bool) -> bool {
    match val {
        OptionValue::Bool(v) => ok && on == v,
        OptionValue::Int(n) => ok && on == (n != 0),
        OptionValue::String(_) => !ok,
    }
}

/// A number was told a value: it takes the numbers that 32 bits hold.
pub open spec fn counted(val: OptionValue, ok: bool, now: u32) -> bool {
    match val {
        OptionValue::Int(n) => ok == (0 <= n && n <= 0xffff_ffff) && (ok ==> now == n),
        _ => !ok,
    }
}

proof fn lemma_names()
    ensures
        options::key_of("tabstop"@) == Some(OptionKey::Tabstop),
        options::key_of("ts"@) == Some(OptionKey::Tabstop),
        options::key_of("shiftwidth"@) == Some(OptionKey::Shiftwidth),
        options::key_of("sw"@) == Some(OptionKey::Shiftwidth),
        options::key_of("textwidth"@) == Some(OptionKey::Textwidth),
        options::key_of("tw"@) == Some(OptionKey::Textwidth),
        options::key_of("expandtab"@) == Some(OptionKey::Expandtab),
        options::key_of("et"@) == Some(OptionKey::Expandtab),
        options::key_of("iskeyword"@) == Some(OptionKey::Iskeyword),
        options::key_of("isk"@) == Some(OptionKey::Iskeyword),
        options::key_of("ignorecase"@) == Some(OptionKey::Ignorecase),
        options::key_of("ic"@) == Some(OptionKey::Ignorecase),
        options::key_of("smartcase"@) == Some(OptionKey::Smartcase),
        options::key_of("scs"@) == Some(OptionKey::Smartcase),
        options::key_of("hlsearch"@) == Some(OptionKey::Hlsearch),
        options::key_of("hls"@) == Some(OptionKey::Hlsearch),
        options::key_of("incsearch"@) == Some(OptionKey::Incsearch),
        options::key_of("is"@) == Some(OptionKey::Incsearch),
        options::key_of("wrapscan"@) == Some(OptionKey::Wrapscan),
        options::key_of("ws"@) == Some(OptionKey::Wrapscan),
        options::key_of("autoindent"@) == Some(OptionKey::Autoindent),
        options::key_of("ai"@) == Some(OptionKey::Autoindent),
        options::key_of("timeoutlen"@) == Some(OptionKey::Timeoutlen),
        options::key_of("tm"@) == Some(OptionKey::Timeoutlen),
        options::key_of("undolevels"@) == Some(OptionKey::Undolevels),
        options::key_of("ul"@) == Some(OptionKey::Undolevels),
        options::key_of("undobreak"@) == Some(OptionKey::Undobreak),
        options::key_of("readonly"@) == Some(OptionKey::Readonly),
        options::key_of("ro"@) == Some(OptionKey::Readonly),
        options::key_of("wrap"@) == Some(OptionKey::Wrap),
        options::key_of("linebreak"@) == Some(OptionKey::Linebreak),
        options::key_of("lbr"@) == Some(OptionKey::Linebreak),
{
    reveal_strlit("tabstop");
    reveal_strlit("ts");
    reveal_strlit("shiftwidth");
    reveal_strlit("sw");
    reveal_strlit("textwidth");
    reveal_strlit("tw");
    reveal_strlit("expandtab");
    reveal_strlit("et");
    reveal_strlit("iskeyword");
    reveal_strlit("isk");
    reveal_strlit("ignorecase");
    reveal_strlit("ic");
    reveal_strlit("smartcase");
    reveal_strlit("scs");
    reveal_strlit("hlsearch");
    reveal_strlit("hls");
    reveal_strlit("incsearch");
    reveal_strlit("is");
    reveal_strlit("wrapscan");
    reveal_strlit("ws");
    reveal_strlit("autoindent");
    reveal_strlit("ai");
    reveal_strlit("timeoutlen");
    reveal_strlit("tm");
    reveal_strlit("undolevels");
    reveal_strlit("ul");
    reveal_strlit("undobreak");
    reveal_strlit("readonly");
    reveal_strlit("ro");
    reveal_strlit("wrap");
    reveal_strlit("linebreak");
    reveal_strlit("lbr");
    assert("tabstop"@.len() == 7 && "tabstop"@[0] == 't' && "tabstop"@[1] == 'a');
    assert("ts"@.len() == 2 && "ts"@[0] == 't' && "ts"@[1] == 's');
    assert("shiftwidth"@.len() == 10 && "shiftwidth"@[0] == 's' && "shiftwidth"@[1] == 'h');
    assert("sw"@.len() == 2 && "sw"@[0] == 's' && "sw"@[1] == 'w');
    assert("textwidth"@.len() == 9 && "textwidth"@[0] == 't' && "textwidth"@[1] == 'e');
    assert("tw"@.len() == 2 && "tw"@[0] == 't' && "tw"@[1] == 'w');
    assert("expandtab"@.len() == 9 && "expandtab"@[0] == 'e' && "expandtab"@[1] == 'x');
    assert("et"@.len() == 2 && "et"@[0] == 'e' && "et"@[1] == 't');
    assert("iskeyword"@.len() == 9 && "iskeyword"@[0] == 'i' && "iskeyword"@[1] == 's');
    assert("isk"@.len() == 3 && "isk"@[0] == 'i' && "isk"@[1] == 's');
    assert("ignorecase"@.len() == 10 && "ignorecase"@[0] == 'i' && "ignorecase"@[1] == 'g');
    assert("ic"@.len() == 2 && "ic"@[0] == 'i' && "ic"@[1] == 'c');
    assert("smartcase"@.len() == 9 && "smartcase"@[0] == 's' && "smartcase"@[1] == 'm');
    assert("scs"@.len() == 3 && "scs"@[0] == 's' && "scs"@[1] == 'c');
    assert("hlsearch"@.len() == 8 && "hlsearch"@[0] == 'h' && "hlsearch"@[1] == 'l');
    assert("hls"@.len() == 3 && "hls"@[0] == 'h' && "hls"@[1] == 'l');
    assert("incsearch"@.len() == 9 && "incsearch"@[0] == 'i' && "incsearch"@[1] == 'n');
    assert("is"@.len() == 2 && "is"@[0] == 'i' && "is"@[1] == 's');
    assert("wrapscan"@.len() == 8 && "wrapscan"@[0] == 'w' && "wrapscan"@[1] == 'r');
    assert("ws"@.len() == 2 && "ws"@[0] == 'w' && "ws"@[1] == 's');
    assert("autoindent"@.len() == 10 && "autoindent"@[0] == 'a' && "autoindent"@[1] == 'u');
    assert("ai"@.len() == 2 && "ai"@[0] == 'a' && "ai"@[1] == 'i');
    assert("timeoutlen"@.len() == 10 && "timeoutlen"@[0] == 't' && "timeoutlen"@[1] == 'i');
    assert("tm"@.len() == 2 && "tm"@[0] == 't' && "tm"@[1] == 'm');
    assert("undolevels"@.len() == 10 && "undolevels"@[0] == 'u' && "undolevels"@[1] == 'n');
    assert("ul"@.len() == 2 && "ul"@[0] == 'u' && "ul"@[1] == 'l');
    assert("undobreak"@.len() == 9 && "undobreak"@[0] == 'u' && "undobreak"@[1] == 'n');
    assert("readonly"@.len() == 8 && "readonly"@[0] == 'r' && "readonly"@[1] == 'e');
    assert("ro"@.len() == 2 && "ro"@[0] == 'r' && "ro"@[1] == 'o');
    assert("wrap"@.len() == 4 && "wrap"@[0] == 'w' && "wrap"@[1] == 'r');
    assert("linebreak"@.len() == 9 && "linebreak"@[0] == 'l' && "linebreak"@[1] == 'i');
    assert("lbr"@.len() == 3 && "lbr"@[0] == 'l' && "lbr"@[1] == 'b');
}

/// Setting a number by its long or its short name stores the number in the setting
/// of that name and touches no other.
pub proof fn law_names_of_numbers(
    b: Options,
    a: Options,
    name: Seq<char>,
    val: OptionValue,
    r: Result<(), EngineError>,
)
    requires
        options::option_told(b, a, name, val, r),
    ensures
        r is Err ==> a == b,
        either(name, "tabstop"@, "ts"@) ==> counted(val, r is Ok, a.tabstop) && a == (Options {
            tabstop: a.tabstop,
            ..b
        }),
        either(name, "shiftwidth"@, "sw"@) ==> counted(val, r is Ok, a.shiftwidth) && a == (
        Options { shiftwidth: a.shiftwidth, ..b }),
        either(name, "textwidth"@, "tw"@) ==> counted(val, r is Ok, a.textwidth) && a == (
        Options { textwidth: a.textwidth, ..b }),
        either(name, "undolevels"@, "ul"@) ==> counted(val, r is Ok, a.undo_levels) && a == (
        Options { undo_levels: a.undo_levels, ..b }),
{
    lemma_names();
}

/// Setting a switch by its long or its short name turns the setting of that name on
/// or off and touches no other.
pub proof fn law_names_of_switches(
    b: Options,
    a: Options,
    name: Seq<char>,
    val: OptionValue,
    r: Result<(), EngineError>,
)
    requires
        options::option_told(b, a, name, val, r),
    ensures
        either(name, "expandtab"@, "et"@) ==> switched(val, r is Ok, a.expandtab) && a == (
        Options { expandtab: a.expandtab, ..b }),
        either(name, "ignorecase"@, "ic"@) ==> switched(val, r is Ok, a.ignorecase) && a == (
        Options { ignorecase: a.ignorecase, ..b }),
        either(name, "smartcase"@, "scs"@) ==> switched(val, r is Ok, a.smartcase) && a == (
        Options { smartcase: a.smartcase, ..b }),
        either(name, "hlsearch"@, "hls"@) ==> switched(val, r is Ok, a.hlsearch) && a == (
        Options { hlsearch: a.hlsearch, ..b }),
        either(name, "incsearch"@, "is"@) ==> switched(val, r is Ok, a.incsearch) && a == (
        Options { incsearch: a.incsearch, ..b }),
        either(name, "wrapscan"@, "ws"@) ==> switched(val, r is Ok, a.wrapscan) && a == (
        Options { wrapscan: a.wrapscan, ..b }),
        either(name, "autoindent"@, "ai"@) ==> switched(val, r is Ok, a.autoindent) && a == (
        Options { autoindent: a.autoindent, ..b }),
        name == "undobreak"@ ==> switched(val, r is Ok, a.undo_break_on_motion) && a == (
        Options { undo_break_on_motion: a.undo_break_on_motion, ..b }),
        either(name, "readonly"@, "ro"@) ==> switched(val, r is Ok, a.readonly) && a == (
        Options { readonly: a.readonly, ..b }),
{
    lemma_names();
}

/// The other names: the characters of a word are a string, the time to wait for a
/// key is a number of milliseconds that is not negative, and two switches share the
/// way of wrapping. Switching wrapping on keeps the breaks at words where they are
/// on, and switching these off keeps the wrapping.
pub proof fn law_names_of_the_rest(
    b: Options,
    a: Options,
    name: Seq<char>,
    val: OptionValue,
    r: Result<(), EngineError>,
)
    requires
        options::option_told(b, a, name, val, r),
    ensures
        either(name, "iskeyword"@, "isk"@) ==> (r is Ok <==> val is String) && (r is Ok ==> val
            == OptionValue::String(a.iskeyword)) && a == (Options { iskeyword: a.iskeyword, ..b }),
        either(name, "timeoutlen"@, "tm"@) ==> (r is Ok <==> (val matches OptionValue::Int(n)
            && n >= 0)) && (r is Ok ==> a.timeout_len.nanos == val->Int_0 * 1_000_000) && a == (
        Options { timeout_len: a.timeout_len, ..b }),
        name == "wrap"@ ==> switched(val, r is Ok, !(a.wrap is Off)) && (r is Ok && !(a.wrap is Off)
            ==> (a.wrap is Word <==> b.wrap is Word)) && a == (Options { wrap: a.wrap, ..b }),
        either(name, "linebreak"@, "lbr"@) ==> switched(val, r is Ok, a.wrap is Word) && (r is Ok
            && !(a.wrap is Word) ==> (a.wrap is Off <==> b.wrap is Off)) && a == (Options {
            wrap: a.wrap,
            ..b
        }),
{
    lemma_names();
}

/// A name that none of the options has is refused, and the message quotes it.
pub proof fn law_other_names_are_refused(
    b: Options,
    a: Options,
    name: Seq<char>,
    val: OptionValue,
    r: Result<(), EngineError>,
)
    requires
        options::option_told(b, a, name, val, r),
        !either(name, "tabstop"@, "ts"@),
        !either(name, "shiftwidth"@, "sw"@),
        !either(name, "textwidth"@, "tw"@),
        !either(name, "expandtab"@, "et"@),
        !either(name, "iskeyword"@, "isk"@),
        !either(name, "ignorecase"@, "ic"@),
        !either(name, "smartcase"@, "scs"@),
        !either(name, "hlsearch"@, "hls"@),
        !either(name, "incsearch"@, "is"@),
        !either(name, "wrapscan"@, "ws"@),
        !either(name, "autoindent"@, "ai"@),
        !either(name, "timeoutlen"@, "tm"@),
        !either(name, "undolevels"@, "ul"@),
        !either(name, "readonly"@, "ro"@),
        !either(name, "linebreak"@, "lbr"@),
        name != "undobreak"@,
        name != "wrap"@,
    ensures
        a == b,
        r matches Err(EngineError::Ex(m)) && m@ == "unknown option `"@ + name + "`"@,
{
}

/// A value of the wrong type is answered with the name, the type that the option
/// takes, and the value; a number that does not fit, with the name and the number.
pub proof fn law_wrong_values_are_named(
    b: Options,
    a: Options,
    name: Seq<char>,
    val: OptionValue,
    r: Result<(), EngineError>,
)
    requires
        options::option_told(b, a, name, val, r),
        r is Err,
        options::key_of(name) is Some,
    ensures
        a == b,
        r->Err_0 is Ex,
        ({
            let m = r->Err_0->Ex_0@;
            let said = "option `"@ + name + "` expects "@;
            let number = either(name, "tabstop"@, "ts"@) || either(name, "shiftwidth"@, "sw"@)
                || either(name, "textwidth"@, "tw"@) || either(name, "undolevels"@, "ul"@);
            let wait = either(name, "timeoutlen"@, "tm"@);
            let word = either(name, "iskeyword"@, "isk"@);
            let got = match val {
                OptionValue::Bool(true) => ", got Bool(true)"@,
                OptionValue::Bool(false) => ", got Bool(false)"@,
                OptionValue::Int(n) => ", got Int("@ + text::decimal(n as int) + ")"@,
                OptionValue::String(s) => ", got String("@ + text::debug_text(s@) + ")"@,
            };
            &&& number && val is Int ==> m == "option `"@ + name + "` out of u32 range: "@
                + text::decimal(val->Int_0 as int)
            &&& number && !(val is Int) ==> m == said + "int"@ + got
            &&& wait ==> m == said + "non-negative int (millis)"@ + got
            &&& word ==> m == said + "string"@ + got
            &&& !number && !wait && !word ==> m == said + "bool"@ + got
        }),
{
    lemma_names();
    reveal_strlit(", got ");
    reveal_strlit("Bool(true)");
    reveal_strlit("Bool(false)");
    reveal_strlit("Int(");
    reveal_strlit("String(");
    reveal_strlit(", got Bool(true)");
    reveal_strlit(", got Bool(false)");
    reveal_strlit(", got Int(");
    reveal_strlit(", got String(");
    let key = options::key_of(name)->0;
    assert(", got Bool(true)"@ =~= ", got "@ + "Bool(true)"@);
    assert(", got Bool(false)"@ =~= ", got "@ + "Bool(false)"@);
    assert(", got Int("@ =~= ", got "@ + "Int("@);
    assert(", got String("@ =~= ", got "@ + "String("@);
    let m = r->Err_0->Ex_0@;
    let said = "option `"@ + name + "` expects "@ + options::wanted(key);
    let got = match val {
        OptionValue::Bool(true) => ", got Bool(true)"@,
        OptionValue::Bool(false) => ", got Bool(false)"@,
        OptionValue::Int(n) => ", got Int("@ + text::decimal(n as int) + ")"@,
        OptionValue::String(s) => ", got String("@ + text::debug_text(s@) + ")"@,
    };
    assert(", got "@ + options::shown(val) =~= got);
    assert(said + ", got "@ + options::shown(val) =~= said + (", got "@ + options::shown(val)));
}

/// Every option that the editor works with is in its settings as the options have
/// it, and is read back from there.
pub proof fn law_settings_are_the_options(o: Options, s: Settings)
    ensures
        ({
            let t = settings::settings_for(o);
            &&& t.tabstop == o.tabstop && t.shiftwidth == o.shiftwidth && t.textwidth
                == o.textwidth
            &&& t.expandtab == o.expandtab && t.autoindent == o.autoindent
            &&& t.ignore_case == o.ignorecase && t.smartcase == o.smartcase && t.wrapscan
                == o.wrapscan
            &&& t.readonly == o.readonly && t.iskeyword == o.iskeyword
            &&& t.undo_levels == o.undo_levels && t.undo_break_on_motion == o.undo_break_on_motion
            &&& t.timeout_len == o.timeout_len
            &&& (t.wrap is Off <==> o.wrap is Off) && (t.wrap is Char <==> o.wrap is Char) && (
            t.wrap is Word <==> o.wrap is Word)
        }),
        ({
            let p = settings::options_for(s);
            &&& s.tabstop <= u32::MAX ==> p.tabstop == s.tabstop
            &&& s.shiftwidth <= u32::MAX ==> p.shiftwidth == s.shiftwidth
            &&& s.textwidth <= u32::MAX ==> p.textwidth == s.textwidth
            &&& p.expandtab == s.expandtab && p.autoindent == s.autoindent
            &&& p.ignorecase == s.ignore_case && p.smartcase == s.smartcase && p.wrapscan
                == s.wrapscan
            &&& p.readonly == s.readonly && p.iskeyword == s.iskeyword
            &&& p.undo_levels == s.undo_levels && p.undo_break_on_motion == s.undo_break_on_motion
            &&& p.timeout_len == s.timeout_len
            &&& p.hlsearch && p.incsearch
            &&& (s.wrap is Off <==> p.wrap is Off) && (s.wrap is Char <==> p.wrap is Char) && (
            s.wrap is Word <==> p.wrap is Word)
        }),
{
}

} // verus!
