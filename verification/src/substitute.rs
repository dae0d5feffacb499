//! The substitute command: parsing `/pattern/replacement/flags` and applying
//! it to a range of lines.
//!
//! The delimiter is always `/`. The `c` flag is accepted and has no effect.
//! References to groups are written `\1` to `\9` and `&` for the whole match.
use std::ops::RangeInclusive;

use hjkl_buffer::Buffer as RopeBuffer;
use vstd::prelude::*;

use crate::buffer;
use crate::buffer::Position;
use crate::buffer_impl;
use crate::content;
use crate::editing;
use crate::editor::Editor;
use crate::edits;
use crate::pattern;
use crate::rope;
use crate::state::VimState;
use crate::surface::{BufferEdit, Query};
use crate::text;
use crate::types;
use crate::types::{Edit as EditOp, Host, Pos};

verus! {

/// A parsed substitute command.
#[derive(Debug, Clone, PartialEq, Eq)]
pub struct SubstituteCmd {
    /// The pattern; `None` stands for the last search pattern.
    pub pattern: Option<String>,
    /// The replacement, with group references as the `regex` crate has them.
    pub replacement: String,
    /// The flags.
    pub flags: SubstFlags,
}

/// The flags of a substitute command.
#[derive(Debug, Clone, Copy, PartialEq, Eq, Structural)]
pub struct SubstFlags {
    /// `g`: replace every match of a line, not just the first.
    pub all: bool,
    /// `i`: ignore case.
    pub ignore_case: bool,
    /// `I`: mind case.
    pub case_sensitive: bool,
    /// `c`: ask before each replacement. Accepted, without effect.
    pub confirm: bool,
}

impl Default for SubstFlags {
    fn default() -> (f: SubstFlags)
        ensures
            f == (SubstFlags {
                all: false,
                ignore_case: false,
                case_sensitive: false,
                confirm: false,
            }),
    {
        SubstFlags { all: false, ignore_case: false, case_sensitive: false, confirm: false }
    }
}

/// What a substitution did.
#[derive(Debug, Clone, Copy, PartialEq, Eq, Structural, Default)]
pub struct SubstituteOutcome {
    /// Replacements made.
    pub replacements: usize,
    /// Lines with at least one replacement.
    pub lines_changed: usize,
}

// ── Grammar ─────────────────────────────────────────────────────────

/// The first `/` at or after `i` that no backslash escapes.
pub open spec fn next_slash(s: Seq<char>, i: int) -> Option<int>
    decreases s.len() - i,
{
    if i >= s.len() {
        None
    } else if s[i] == '\\' {
        if i + 1 < s.len() {
            next_slash(s, i + 2)
        } else {
            None
        }
    } else if s[i] == '/' {
        Some(i)
    } else {
        next_slash(s, i + 1)
    }
}

/// `s` with `\/` read as `/`; every other escape stays as it is.
pub open spec fn unescaped(s: Seq<char>) -> Seq<char>
    decreases s.len(),
{
    if s.len() == 0 {
        s
    } else if s[0] == '\\' && s.len() >= 2 {
        (if s[1] == '/' {
            seq!['/']
        } else {
            seq!['\\', s[1]]
        }) + unescaped(s.skip(2))
    } else {
        seq![s[0]] + unescaped(s.skip(1))
    }
}

/// The fields of a command: pattern, replacement and flags, as far as there
/// are slashes between them. A third slash belongs to the flags.
pub open spec fn fields(s: Seq<char>) -> Seq<Seq<char>> {
    match next_slash(s, 0) {
        None => seq![unescaped(s)],
        Some(a) => match next_slash(s, a + 1) {
            None => seq![unescaped(s.take(a)), unescaped(s.skip(a + 1))],
            Some(b) => seq![
                unescaped(s.take(a)),
                unescaped(s.subrange(a + 1, b)),
                unescaped(s.skip(b + 1)),
            ],
        },
    }
}

/// True for the characters that a group name can hold: letters and digits of
/// ASCII, and the underscore.
pub open spec fn name_char(c: char) -> bool {
    '0' <= c <= '9' || 'a' <= c <= 'z' || 'A' <= c <= 'Z' || c == '_'
}

/// The reference to group `d` in front of `rest`. Braces keep it apart from a
/// character that would be read as part of its name.
pub open spec fn reference(d: char, rest: Seq<char>) -> Seq<char> {
    if rest.len() > 0 && name_char(rest[0]) {
        seq!['$', '{', d, '}']
    } else {
        seq!['$', d]
    }
}

/// A replacement with its references as the `regex` crate has them: `&` refers
/// to group 0, the whole match, `\1` to `\9` refer to the groups 1 to 9, and any
/// other escaped character stands for itself.
pub open spec fn translated(s: Seq<char>) -> Seq<char>
    decreases s.len(),
{
    if s.len() == 0 {
        s
    } else if s[0] == '&' {
        let rest = translated(s.skip(1));
        reference('0', rest) + rest
    } else if s[0] == '\\' {
        if s.len() == 1 {
            Seq::<char>::empty()
        } else {
            let rest = translated(s.skip(2));
            (if '1' <= s[1] <= '9' {
                reference(s[1], rest)
            } else {
                seq![s[1]]
            }) + rest
        }
    } else {
        seq![s[0]] + translated(s.skip(1))
    }
}

/// True for the characters that stand for a flag.
pub open spec fn is_flag(c: char) -> bool {
    c == 'g' || c == 'i' || c == 'I' || c == 'c'
}

/// The flags that a string of flag characters sets.
pub open spec fn flags_of(s: Seq<char>) -> SubstFlags {
    SubstFlags {
        all: s.contains('g'),
        ignore_case: s.contains('i'),
        case_sensitive: s.contains('I'),
        confirm: s.contains('c'),
    }
}

/// What a command consists of: the pattern, `None` where it is empty, the
/// replacement and the flags; or the message that says what is wrong.
pub open spec fn parsed(s: Seq<char>) -> Result<
    (Option<Seq<char>>, Seq<char>, SubstFlags),
    Seq<char>,
> {
    let parts = fields(s.skip(1));
    let flags = if parts.len() > 2 {
        parts[2]
    } else {
        Seq::<char>::empty()
    };
    let bad = buffer::first_where(flags, |c: char| !is_flag(c));
    if s.len() == 0 || s[0] != '/' {
        Err("substitute: expected '/' delimiter, got "@ + text::debug_text(s))
    } else if parts.len() < 2 {
        Err("substitute needs /pattern/replacement/"@)
    } else if bad < flags.len() {
        Err("unknown flag '"@ + seq![flags[bad]] + "' in substitute"@)
    } else {
        Ok(
            (
                if parts[0].len() == 0 {
                    None
                } else {
                    Some(parts[0])
                },
                translated(parts[1]),
                flags_of(flags),
            ),
        )
    }
}

/// A command was read as what it consists of, or refused with the message.
pub open spec fn command_read(s: Seq<char>, r: Result<SubstituteCmd, String>) -> bool {
    match (r, parsed(s)) {
        (Ok(cmd), Ok(want)) => {
            &&& opt_text(cmd.pattern) == want.0
            &&& cmd.replacement@ == want.1
            &&& cmd.flags == want.2
        },
        (Err(e), Err(want)) => e@ == want,
        _ => false,
    }
}

/// The text of an optional string.
pub open spec fn opt_text(s: Option<String>) -> Option<Seq<char>> {
    match s {
        Some(t) => Some(t@),
        None => None,
    }
}

// ── Parsing ─────────────────────────────────────────────────────────

fn find_slash(v: &Vec<char>, from: usize) -> (r: Option<usize>)
    requires
        from <= v.len(),
    ensures
        buffer::as_row(r) == next_slash(v@, from as int),
        r is Some ==> from <= r->0 < v.len(),
{
    let mut i: usize = from;
    while i < v.len()
        invariant
            from <= i <= v.len(),
            next_slash(v@, from as int) == next_slash(v@, i as int),
        decreases v.len() - i,
    {
        if v[i] == '\\' {
            if v.len() - i < 2 {
                return None;
            }
            i = i + 2;
        } else if v[i] == '/' {
            return Some(i);
        } else {
            i = i + 1;
        }
    }
    None
}

fn unescape(v: &Vec<char>, from: usize, to: usize) -> (s: String)
    requires
        from <= to <= v.len(),
    ensures
        s@ == unescaped(v@.subrange(from as int, to as int)),
{
    let ghost all = v@.subrange(from as int, to as int);
    let mut s = String::new();
    let mut i: usize = from;
    assert(s@ + unescaped(all) =~= unescaped(all));
    while i < to
        invariant
            from <= i <= to <= v.len(),
            s@ + unescaped(v@.subrange(i as int, to as int)) == unescaped(all),
        decreases to - i,
    {
        let ghost rest = v@.subrange(i as int, to as int);
        let ghost before = s@;
        if v[i] == '\\' && to - i >= 2 {
            proof {
                assert(rest.skip(2) =~= v@.subrange(i + 2, to as int));
                assert(rest[0] == v@[i as int] && rest[1] == v@[i + 1]);
            }
            if v[i + 1] == '/' {
                s.push('/');
                assert(s@ + unescaped(rest.skip(2)) =~= before + unescaped(rest));
            } else {
                s.push('\\');
                s.push(v[i + 1]);
                assert(s@ + unescaped(rest.skip(2)) =~= before + unescaped(rest));
            }
            i = i + 2;
        } else {
            proof {
                assert(rest.skip(1) =~= v@.subrange(i + 1, to as int));
                assert(rest[0] == v@[i as int]);
            }
            s.push(v[i]);
            assert(s@ + unescaped(rest.skip(1)) =~= before + unescaped(rest));
            i = i + 1;
        }
    }
    assert(v@.subrange(i as int, to as int) =~= Seq::<char>::empty());
    assert(s@ + Seq::<char>::empty() =~= s@);
    s
}

/// The fields of a command.
fn split_on_slash(v: &Vec<char>) -> (out: Vec<String>)
    ensures
        buffer::texts(out@) == fields(v@),
{
    let mut out: Vec<String> = Vec::new();
    let a: usize = match find_slash(v, 0) {
        Some(a) => a,
        None => {
            out.push(unescape(v, 0, v.len()));
            assert(v@.subrange(0, v@.len() as int) =~= v@);
            assert(buffer::texts(out@) =~= fields(v@));
            return out;
        },
    };
    out.push(unescape(v, 0, a));
    assert(v@.subrange(0, a as int) =~= v@.take(a as int));
    assert(v@.skip(a + 1) =~= v@.subrange(a + 1, v@.len() as int));
    let b: usize = match find_slash(v, a + 1) {
        Some(b) => b,
        None => {
            out.push(unescape(v, a + 1, v.len()));
            assert(buffer::texts(out@) =~= fields(v@));
            return out;
        },
    };
    out.push(unescape(v, a + 1, b));
    out.push(unescape(v, b + 1, v.len()));
    assert(v@.skip(b + 1) =~= v@.subrange(b + 1, v@.len() as int));
    assert(buffer::texts(out@) =~= fields(v@));
    out
}

/// Whether what follows index `i` of a replacement starts with a character that
/// a group name can hold, once it is translated.
fn name_goes_on(v: &Vec<char>, i: usize) -> (b: bool)
    requires
        i <= v.len(),
    ensures
        b == (translated(v@.skip(i as int)).len() > 0 && name_char(
            translated(v@.skip(i as int))[0],
        )),
{
    let ghost rest = v@.skip(i as int);
    if i >= v.len() || v[i] == '&' {
        return false;
    }
    assert(rest[0] == v@[i as int]);
    let mut c = v[i];
    if c == '\\' {
        if v.len() - i == 1 {
            return false;
        }
        c = v[i + 1];
        assert(rest[1] == c);
        if '1' <= c && c <= '9' {
            return false;
        }
    }
    ('0' <= c && c <= '9') || ('a' <= c && c <= 'z') || ('A' <= c && c <= 'Z') || c == '_'
}

/// Appends the reference to group `d`, in front of what follows index `i` of a
/// replacement.
fn push_reference(s: &mut String, d: char, v: &Vec<char>, i: usize)
    requires
        i <= v.len(),
    ensures
        final(s)@ == old(s)@ + reference(d, translated(v@.skip(i as int))),
{
    s.push('$');
    if name_goes_on(v, i) {
        s.push('{');
        s.push(d);
        s.push('}');
    } else {
        s.push(d);
    }
    assert(s@ =~= old(s)@ + reference(d, translated(v@.skip(i as int))));
}

/// A replacement with its references as the `regex` crate has them.
fn translate_replacement(t: &str) -> (s: String)
    ensures
        s@ == translated(t@),
{
    let v = text::chars_of(t);
    let mut s = String::new();
    let mut i: usize = 0;
    assert(t@.skip(0) =~= t@);
    assert(s@ + translated(t@) =~= translated(t@));
    while i < v.len()
        invariant
            v@ == t@,
            i <= v.len(),
            s@ + translated(t@.skip(i as int)) == translated(t@),
        decreases v.len() - i,
    {
        let c = v[i];
        let ghost rest = t@.skip(i as int);
        let ghost before = s@;
        proof {
            assert(rest[0] == c);
            assert(rest.skip(1) =~= t@.skip(i + 1));
        }
        if c == '&' {
            push_reference(&mut s, '0', &v, i + 1);
            assert(s@ + translated(rest.skip(1)) =~= before + translated(rest));
            i = i + 1;
        } else if c == '\\' {
            if v.len() - i == 1 {
                assert(s@ + translated(rest) =~= s@);
                return s;
            }
            let d = v[i + 1];
            proof {
                assert(rest[1] == d);
                assert(rest.skip(2) =~= t@.skip(i + 2));
            }
            if '1' <= d && d <= '9' {
                push_reference(&mut s, d, &v, i + 2);
            } else {
                s.push(d);
            }
            assert(s@ + translated(rest.skip(2)) =~= before + translated(rest));
            i = i + 2;
        } else {
            s.push(c);
            assert(s@ + translated(rest.skip(1)) =~= before + translated(rest));
            i = i + 1;
        }
    }
    assert(t@.skip(i as int) =~= Seq::<char>::empty());
    assert(s@ + Seq::<char>::empty() =~= s@);
    s
}

/// The flags that a string sets, or its first character that is no flag.
fn parse_flags(t: &str) -> (r: Result<SubstFlags, char>)
    ensures
        ({
            let bad = buffer::first_where(t@, |c: char| !is_flag(c));
            if bad < t@.len() {
                r == Err::<SubstFlags, char>(t@[bad])
            } else {
                r == Ok::<SubstFlags, char>(flags_of(t@))
            }
        }),
{
    let v = text::chars_of(t);
    let ghost p = |c: char| !is_flag(c);
    let mut flags = SubstFlags::default();
    let mut i: usize = 0;
    while i < v.len()
        invariant
            v@ == t@,
            i <= v.len(),
            p == (|c: char| !is_flag(c)),
            forall|k: int| 0 <= k < i ==> !p(#[trigger] t@[k]),
            flags == flags_of(t@.take(i as int)),
        decreases v.len() - i,
    {
        let c = v[i];
        let ghost seen = t@.take(i as int);
        proof {
            assert(t@.take(i + 1) =~= seen.push(c));
            lemma_push_contains(seen, c);
        }
        if c == 'g' {
            flags.all = true;
        } else if c == 'i' {
            flags.ignore_case = true;
        } else if c == 'I' {
            flags.case_sensitive = true;
        } else if c == 'c' {
            flags.confirm = true;
        } else {
            proof {
                buffer::lemma_first_where(t@, p, i as int);
            }
            return Err(c);
        }
        i = i + 1;
    }
    proof {
        buffer::lemma_first_where(t@, p, i as int);
        assert(t@.take(i as int) =~= t@);
    }
    Ok(flags)
}

proof fn lemma_push_contains(s: Seq<char>, c: char)
    ensures
        forall|x: char| #[trigger] s.push(c).contains(x) == (x == c || s.contains(x)),
{
    assert forall|x: char| #[trigger] s.push(c).contains(x) == (x == c || s.contains(x)) by {
        if s.contains(x) {
            let i = choose|i: int| 0 <= i < s.len() && s[i] == x;
            assert(s.push(c)[i] == x);
        }
        if x == c {
            assert(s.push(c)[s.len() as int] == x);
        }
        if s.push(c).contains(x) && x != c {
            let i = choose|i: int| 0 <= i < s.push(c).len() && s.push(c)[i] == x;
            assert(s[i] == x);
        }
    }
}

/// Parses what follows the name of a substitute command. It has to start with
/// `/` and to have a pattern and a replacement; flags may follow.
pub fn parse_substitute(s: &str) -> (r: Result<SubstituteCmd, String>)
    ensures
        command_read(s@, r),
{
    let v = text::chars_of(s);
    if v.len() == 0 || v[0] != '/' {
        let mut e = String::new();
        e.push_str("substitute: expected '/' delimiter, got ");
        let q = text::quoted(s);
        e.push_str(q.as_str());
        assert(e@ =~= "substitute: expected '/' delimiter, got "@ + text::debug_text(s@));
        return Err(e);
    }
    let rest = chars_after_first(&v);
    let parts = split_on_slash(&rest);
    assert(buffer::texts(parts@).len() == parts@.len());
    if parts.len() < 2 {
        let e = "substitute needs /pattern/replacement/".to_string();
        return Err(e);
    }
    assert(buffer::texts(parts@)[0] == parts@[0]@);
    assert(buffer::texts(parts@)[1] == parts@[1]@);
    let pattern: Option<String> = if parts[0].as_str().is_empty() {
        None
    } else {
        Some(parts[0].clone())
    };
    let replacement = translate_replacement(parts[1].as_str());
    let mut flags = SubstFlags::default();
    if parts.len() > 2 {
        assert(buffer::texts(parts@)[2] == parts@[2]@);
        match parse_flags(parts[2].as_str()) {
            Ok(f) => {
                flags = f;
            },
            Err(c) => {
                let mut e = String::new();
                e.push_str("unknown flag '");
                e.push(c);
                e.push_str("' in substitute");
                assert(e@ =~= "unknown flag '"@ + seq![c] + "' in substitute"@);
                return Err(e);
            },
        }
    }
    Ok(SubstituteCmd { pattern, replacement, flags })
}

fn chars_after_first(v: &Vec<char>) -> (r: Vec<char>)
    requires
        v.len() > 0,
    ensures
        r@ == v@.skip(1),
{
    let mut r: Vec<char> = Vec::new();
    let mut i: usize = 1;
    while i < v.len()
        invariant
            1 <= i <= v.len(),
            r@ == v@.subrange(1, i as int),
        decreases v.len() - i,
    {
        r.push(v[i]);
        i = i + 1;
        assert(v@.subrange(1, i as int) =~= v@.subrange(1, i - 1).push(v@[i - 1]));
    }
    assert(v@.skip(1) =~= v@.subrange(1, v@.len() as int));
    r
}

// ── Applying a command ──────────────────────────────────────────────

/// `RangeInclusive::start`: the lower bound of a range that was not iterated
/// over.
pub assume_specification<Idx>[ RangeInclusive::<Idx>::start ](r: &RangeInclusive<Idx>) -> (i: &Idx)
    ensures
        !r@.exhausted ==> *i == r@.start,
;

/// `RangeInclusive::end`: the upper bound of a range that was not iterated
/// over.
pub assume_specification<Idx>[ RangeInclusive::<Idx>::end ](r: &RangeInclusive<Idx>) -> (i: &Idx)
    ensures
        !r@.exhausted ==> *i == r@.end,
;

/// The pattern of a command: its own, or else the last search pattern.
pub open spec fn pattern_for(cmd: SubstituteCmd, last: Option<String>) -> Option<Seq<char>> {
    match cmd.pattern {
        Some(p) => Some(p@),
        None => opt_text(last),
    }
}

/// Whether a command ignores case: its flags decide, and else the settings.
pub open spec fn ignores_case(flags: SubstFlags, setting: bool) -> bool {
    if flags.case_sensitive {
        false
    } else if flags.ignore_case {
        true
    } else {
        setting
    }
}

/// A pattern as it is compiled.
pub open spec fn effective(pattern: Seq<char>, ignore_case: bool) -> Seq<char> {
    if ignore_case {
        "(?i)"@ + pattern
    } else {
        pattern
    }
}

/// A line with its matches replaced, all of them or the first, and how many
/// replacements that makes.
pub open spec fn line_result(
    re: regex::Regex,
    line: Seq<char>,
    with: Seq<char>,
    all: bool,
) -> (Seq<char>, int) {
    let n = pattern::matches_in(re, line).len() as int;
    if n == 0 {
        (line, 0)
    } else if all {
        (pattern::all_replaced(re, line, with), n)
    } else {
        (pattern::first_replaced(re, line, with), 1)
    }
}

/// The last row that a range of rows reaches.
pub open spec fn last_in_range(lines: Seq<Seq<char>>, end: int) -> int {
    text::min(end, lines.len() - 1)
}

/// The results of the lines of a range of rows.
pub open spec fn range_results(
    re: regex::Regex,
    lines: Seq<Seq<char>>,
    start: int,
    end: int,
    with: Seq<char>,
    all: bool,
) -> Seq<(Seq<char>, int)> {
    Seq::new(
        text::max(last_in_range(lines, end) + 1 - start, 0) as nat,
        |i: int| line_result(re, lines[start + i], with, all),
    )
}

/// A list of results: new lines and how many replacements each holds.
pub open spec fn result_views(v: Seq<(String, usize)>) -> Seq<(Seq<char>, int)> {
    Seq::new(v.len(), |i: int| (v[i].0@, v[i].1 as int))
}

/// How many replacements some results make.
pub open spec fn replaced_in(r: Seq<(Seq<char>, int)>) -> int
    decreases r.len(),
{
    if r.len() == 0 {
        0
    } else {
        replaced_in(r.drop_last()) + r.last().1
    }
}

/// How many of some results make a replacement.
pub open spec fn changed_in(r: Seq<(Seq<char>, int)>) -> int
    decreases r.len(),
{
    if r.len() == 0 {
        0
    } else {
        changed_in(r.drop_last()) + if r.last().1 > 0 {
            1int
        } else {
            0
        }
    }
}

/// The index of the last result that makes a replacement, or 0.
pub open spec fn last_changed(r: Seq<(Seq<char>, int)>) -> int
    decreases r.len(),
{
    if r.len() == 0 {
        0
    } else if r.last().1 > 0 {
        r.len() - 1
    } else {
        last_changed(r.drop_last())
    }
}

/// The lines with the results from `start` on in place of theirs.
pub open spec fn lines_with(
    lines: Seq<Seq<char>>,
    start: int,
    r: Seq<(Seq<char>, int)>,
) -> Seq<Seq<char>> {
    Seq::new(
        lines.len(),
        |i: int|
            if start <= i < start + r.len() && r[i - start].1 > 0 {
                r[i - start].0
            } else {
                lines[i]
            },
    )
}

/// The logged change that puts `t` in place of a row.
pub open spec fn row_change(lines: Seq<Seq<char>>, row: int, t: Seq<char>) -> (
    Pos,
    Pos,
    Seq<char>,
) {
    (buffer_impl::as_pos((row, 0)), buffer_impl::as_pos((row, lines[row].len() as int)), t)
}

/// The logged changes of a substitution, one for each line that changed. The
/// last line comes first, so that each range still holds when its turn comes.
pub open spec fn logged(lines: Seq<Seq<char>>, start: int, r: Seq<(Seq<char>, int)>) -> Seq<
    (Pos, Pos, Seq<char>),
>
    decreases r.len(),
{
    if r.len() == 0 {
        Seq::<(Pos, Pos, Seq<char>)>::empty()
    } else {
        let above = logged(lines, start, r.drop_last());
        if r.last().1 > 0 {
            seq![row_change(lines, start + r.len() - 1, r.last().0)] + above
        } else {
            above
        }
    }
}

/// What a substitution does, given the results of its lines. Nothing, where
/// edits are refused. Else the text before it is one undo step. Where nothing
/// was replaced, that step is taken back and the text stays as it is; otherwise
/// the whole text is a new one, the changes of its lines are logged, the cursor
/// ends at the start of the last line that changed, and the pattern is the last
/// search pattern.
pub open spec fn substituted<H: Host>(
    b: Editor<RopeBuffer, H>,
    a: Editor<RopeBuffer, H>,
    out: SubstituteOutcome,
    pat: Seq<char>,
    start: int,
    r: Seq<(Seq<char>, int)>,
) -> bool {
    let history = editing::capped(
        editing::entry_views(b.undo_stack@).push(editing::entry_of(b.buffer)),
        b.settings.undo_levels as int,
    );
    let now = buffer::split_text(
        buffer::join_text(lines_with(rope::buffer_lines(b.buffer), start, r)),
    );
    if b.settings.readonly {
        &&& out.replacements == 0
        &&& out.lines_changed == 0
        &&& a == b
    } else if replaced_in(r) == 0 {
        &&& out.replacements == 0
        &&& out.lines_changed == changed_in(r)
        &&& a.redo_stack@.len() == 0
        &&& editing::entry_views(a.undo_stack@) == history.drop_last()
        &&& a == (Editor { undo_stack: a.undo_stack, redo_stack: a.redo_stack, ..b })
    } else {
        &&& out.replacements == replaced_in(r)
        &&& out.lines_changed == changed_in(r)
        &&& a.redo_stack@.len() == 0
        &&& content::op_views(a.change_log@) == content::op_views(b.change_log@) + logged(
            rope::buffer_lines(b.buffer),
            start,
            r,
        )
        &&& a.pending_content_edits@.len() == 0
        &&& editing::entry_views(a.undo_stack@) == history
        &&& rope::buffer_lines(a.buffer) == now
        &&& rope::buffer_cursor(a.buffer) == buffer::clamp(now, (start + last_changed(r), 0int))
        &&& rope::buffer_folds(a.buffer) == rope::buffer_folds(b.buffer)
        &&& rope::buffer_gen(a.buffer) == buffer::bumped(rope::buffer_gen(b.buffer))
        &&& opt_text(a.vim.last_search) == Some(pat)
        &&& a.vim == (VimState {
            last_search: a.vim.last_search,
            last_search_forward: true,
            ..b.vim
        })
        &&& a == (Editor {
            buffer: a.buffer,
            undo_stack: a.undo_stack,
            redo_stack: a.redo_stack,
            vim: a.vim,
            change_log: a.change_log,
            pending_content_edits: a.pending_content_edits,
            pending_content_reset: true,
            content_dirty: true,
            cached_content: None,
            ..b
        })
    }
}

/// What a command does to the rows from `start` to `end`. Its pattern is its own
/// or the last one, compiled as its flags and the settings ask for.
pub open spec fn command_applied<H: Host>(
    b: Editor<RopeBuffer, H>,
    a: Editor<RopeBuffer, H>,
    cmd: SubstituteCmd,
    start: int,
    end: int,
    r: Result<SubstituteOutcome, String>,
) -> bool {
    match pattern_for(cmd, b.vim.last_search) {
        None => r matches Err(e) && e@ == "no previous regular expression"@ && a == b,
        Some(p) => match pattern::compiled(
            effective(p, ignores_case(cmd.flags, b.settings.ignore_case)),
        ) {
            Err(e) => r matches Err(m) && m@ == "bad pattern: "@ + types::regex_error_text(e) && a
                == b,
            Ok(re) => r matches Ok(out) && substituted(
                b,
                a,
                out,
                p,
                start,
                range_results(
                    re,
                    rope::buffer_lines(b.buffer),
                    start,
                    end,
                    cmd.replacement@,
                    cmd.flags.all,
                ),
            ),
        },
    }
}

/// The results up to some index make no more replacements than all of them.
proof fn lemma_replaced_grows(r: Seq<(Seq<char>, int)>, i: int, j: int)
    requires
        0 <= i <= j <= r.len(),
        forall|k: int| 0 <= k < r.len() ==> (#[trigger] r[k]).1 >= 0,
    ensures
        0 <= replaced_in(r.take(i)) <= replaced_in(r.take(j)),
        0 <= changed_in(r.take(j)) <= j,
        changed_in(r.take(j)) <= replaced_in(r.take(j)),
        0 <= last_changed(r.take(j)) <= j,
        j > 0 ==> last_changed(r.take(j)) < j,
    decreases j,
{
    if j > 0 {
        assert(r.take(j).drop_last() =~= r.take(j - 1));
        if i < j {
            lemma_replaced_grows(r, i, j - 1);
        } else {
            lemma_replaced_grows(r, i - 1, j - 1);
        }
    }
}

/// All lines of a buffer.
fn all_lines(b: &RopeBuffer) -> (v: Vec<String>)
    ensures
        buffer::texts(v@) == rope::buffer_lines(*b),
{
    let n: usize = rope::rope_row_count(b);
    let ghost lines = rope::buffer_lines(*b);
    let mut v: Vec<String> = Vec::new();
    let mut i: usize = 0;
    while i < n
        invariant
            lines == rope::buffer_lines(*b),
            n == lines.len(),
            i <= n,
            buffer::texts(v@) == lines.take(i as int),
        decreases n - i,
    {
        let ghost before = v@;
        match rope::rope_line(b, i) {
            Some(s) => {
                v.push(s.to_string());
            },
            None => {},
        }
        i = i + 1;
        assert(buffer::texts(v@) =~= buffer::texts(before).push(lines[i - 1]));
        assert(lines.take(i as int) =~= lines.take(i - 1).push(lines[i - 1]));
    }
    assert(lines.take(i as int) =~= lines);
    v
}

/// Logs the changes of a substitution.
fn log_results<H: Host>(
    ed: &mut Editor<RopeBuffer, H>,
    start: usize,
    results: &Vec<(String, usize)>,
)
    requires
        results@.len() > 0 ==> start + results@.len() <= rope::buffer_lines(old(ed).buffer).len(),
    ensures
        content::op_views(final(ed).change_log@) == content::op_views(old(ed).change_log@)
            + logged(
            rope::buffer_lines(old(ed).buffer),
            start as int,
            result_views(results@),
        ),
        *final(ed) == (Editor { change_log: final(ed).change_log, ..*old(ed) }),
{
    let ghost r = result_views(results@);
    let ghost lines = rope::buffer_lines(ed.buffer);
    let ghost first = content::op_views(ed.change_log@);
    let mut i: usize = results.len();
    let n: usize = rope::rope_row_count(&ed.buffer);
    assert(r.take(r.len() as int) =~= r);
    while i > 0
        invariant
            r == result_views(results@),
            i <= results.len(),
            lines == rope::buffer_lines(ed.buffer),
            n == lines.len(),
            results@.len() > 0 ==> start + results@.len() <= n,
            content::op_views(ed.change_log@) + logged(lines, start as int, r.take(i as int))
                == first + logged(lines, start as int, r),
            *ed == (Editor { change_log: ed.change_log, ..*old(ed) }),
        decreases i,
    {
        i = i - 1;
        let ghost before = ed.change_log@;
        let ghost above = logged(lines, start as int, r.take(i as int));
        assert(r.take(i + 1).drop_last() =~= r.take(i as int));
        if results[i].1 > 0 {
            let len: usize = match rope::rope_line(&ed.buffer, start + i) {
                Some(s) => text::char_count(s),
                None => 0,
            };
            let row: u32 = (start + i) as u32;
            ed.change_log.push(
                EditOp {
                    range: Pos { line: row, col: 0 }..Pos { line: row, col: len as u32 },
                    replacement: results[i].0.clone(),
                },
            );
            let ghost op = row_change(lines, start + i, r[i as int].0);
            assert(content::op_views(ed.change_log@) =~= content::op_views(before).push(op));
            assert(content::op_views(before).push(op) + above =~= content::op_views(before) + (
            seq![op] + above));
        }
    }
    assert(content::op_views(ed.change_log@) + logged(lines, start as int, r.take(0))
        =~= content::op_views(ed.change_log@));
}

/// Puts the results of a range of lines into the text, unless edits are refused:
/// `results[i]` is the new line of row `start + i` and how many replacements it
/// holds.
pub fn apply_results<H: Host>(
    ed: &mut Editor<RopeBuffer, H>,
    pat: String,
    start: usize,
    results: Vec<(String, usize)>,
) -> (out: SubstituteOutcome)
    requires
        results@.len() > 0 ==> start + results@.len() <= rope::buffer_lines(old(ed).buffer).len(),
        replaced_in(result_views(results@)) <= usize::MAX,
    ensures
        substituted(
            *old(ed),
            *final(ed),
            out,
            pat@,
            start as int,
            result_views(results@),
        ),
{
    if ed.settings.readonly {
        return SubstituteOutcome { replacements: 0, lines_changed: 0 };
    }
    ed.push_undo();
    let ghost r = result_views(results@);
    let ghost lines = rope::buffer_lines(ed.buffer);
    let mut new_lines = all_lines(&ed.buffer);
    let mut replacements: usize = 0;
    let mut lines_changed: usize = 0;
    let mut last: usize = 0;
    let mut i: usize = 0;
    assert(lines_with(lines, start as int, r.take(0)) =~= lines);
    assert(buffer::texts(new_lines@).len() == new_lines@.len());
    let total: usize = new_lines.len();
    while i < results.len()
        invariant
            r == result_views(results@),
            i <= results.len(),
            new_lines@.len() == lines.len(),
            total == lines.len(),
            results@.len() > 0 ==> start + results@.len() <= lines.len(),
            replaced_in(r) <= usize::MAX,
            buffer::texts(new_lines@) == lines_with(lines, start as int, r.take(i as int)),
            replacements == replaced_in(r.take(i as int)),
            lines_changed == changed_in(r.take(i as int)),
            last == last_changed(r.take(i as int)),
        decreases results.len() - i,
    {
        proof {
            lemma_replaced_grows(r, i + 1, r.len() as int);
            lemma_replaced_grows(r, i as int, i + 1);
            assert(r.take(r.len() as int) =~= r);
            assert(r.take(i + 1).drop_last() =~= r.take(i as int));
        }
        let n: usize = results[i].1;
        let ghost before = new_lines@;
        if n > 0 {
            new_lines.set(start + i, results[i].0.clone());
            replacements = replacements + n;
            lines_changed = lines_changed + 1;
            last = i;
        }
        i = i + 1;
        assert(buffer::texts(new_lines@) =~= lines_with(lines, start as int, r.take(i as int)))
            by {
            assert(buffer::texts(before).len() == lines.len());
            assert forall|k: int| 0 <= k < lines.len() implies buffer::texts(new_lines@)[k]
                == lines_with(lines, start as int, r.take(i as int))[k] by {
                assert(buffer::texts(before)[k] == lines_with(
                    lines,
                    start as int,
                    r.take(i - 1),
                )[k]);
            }
        }
    }
    assert(r.take(i as int) =~= r);
    proof {
        lemma_replaced_grows(r, 0, r.len() as int);
    }
    if replacements == 0 {
        let ghost history = ed.undo_stack@;
        assert(editing::entry_views(history).len() == history.len());
        ed.pop_last_undo();
        assert(editing::entry_views(history.drop_last()) =~= editing::entry_views(
            history,
        ).drop_last());
        return SubstituteOutcome { replacements: 0, lines_changed: 0 };
    }
    log_results(ed, start, &results);
    let t = editing::join_lines(&new_lines);
    BufferEdit::replace_all(&mut ed.buffer, t.as_str());
    rope::rope_set_cursor(&mut ed.buffer, Position::new(start + last, 0));
    ed.pending_content_edits.clear();
    ed.pending_content_reset = true;
    ed.mark_content_dirty();
    ed.set_last_search(Some(pat), true);
    SubstituteOutcome { replacements, lines_changed }
}

fn replace_in_line(re: &regex::Regex, line: &str, with: &str, all: bool) -> (r: (String, usize))
    ensures
        (r.0@, r.1 as int) == line_result(*re, line@, with@, all),
        0 <= r.1 <= text::byte_len(line@) + 1,
{
    let v = pattern::all_matches(re, line);
    if v.len() == 0 {
        return (line.to_string(), 0);
    }
    proof {
        pattern::lemma_in_order_count(v@, text::byte_len(line@) as int, v@.len() - 1);
    }
    if all {
        (pattern::replace_every(re, line, with), v.len())
    } else {
        (pattern::replace_first(re, line, with), 1)
    }
}

/// Applies a command to the rows `line_range`, counted from 0, as far as there
/// are such rows. A read-only editor changes nothing and counts no replacement.
#[verifier::rlimit(30)]
pub fn apply_substitute<H: Host>(
    ed: &mut Editor<RopeBuffer, H>,
    cmd: &SubstituteCmd,
    line_range: RangeInclusive<u32>,
) -> (r: Result<SubstituteOutcome, String>)
    requires
        !line_range@.exhausted,
    ensures
        command_applied(
            *old(ed),
            *final(ed),
            *cmd,
            line_range@.start as int,
            line_range@.end as int,
            r,
        ),
{
    let pat: String = match &cmd.pattern {
        Some(p) => p.clone(),
        None => match &ed.vim.last_search {
            Some(p) => p.clone(),
            None => {
                return Err("no previous regular expression".to_string());
            },
        },
    };
    let ignore_case = if cmd.flags.case_sensitive {
        false
    } else if cmd.flags.ignore_case {
        true
    } else {
        ed.settings.ignore_case
    };
    let mut full = String::new();
    if ignore_case {
        full.push_str("(?i)");
    }
    full.push_str(pat.as_str());
    assert(full@ =~= effective(pat@, ignore_case));
    let re = match pattern::compile(full.as_str()) {
        Ok(re) => re,
        Err(e) => {
            let mut m = String::new();
            m.push_str("bad pattern: ");
            let t = types::describe_regex_error(&e);
            m.push_str(t.as_str());
            assert(m@ =~= "bad pattern: "@ + types::regex_error_text(e));
            return Err(m);
        },
    };
    let start: usize = *line_range.start() as usize;
    let end: usize = *line_range.end() as usize;
    let total: usize = rope::rope_row_count(&ed.buffer);
    let last: usize = if end < total - 1 {
        end
    } else {
        total - 1
    };
    let ghost lines = rope::buffer_lines(ed.buffer);
    let ghost goal = range_results(
        re,
        lines,
        start as int,
        end as int,
        cmd.replacement@,
        cmd.flags.all,
    );
    let mut results: Vec<(String, usize)> = Vec::new();
    let mut row: usize = start;
    proof {
        buffer::lemma_bytes_above_grows(lines, 0, lines.len() as int);
        assert(result_views(results@) =~= goal.take(0));
        if start <= lines.len() {
            buffer::lemma_bytes_above_grows(lines, 0, start as int);
        }
    }
    while row <= last
        invariant
            *ed == *old(ed),
            lines == rope::buffer_lines(ed.buffer),
            total == lines.len(),
            total >= 1,
            last == last_in_range(lines, end as int),
            buffer::bytes_above(lines, total as int) <= usize::MAX,
            goal == range_results(
                re,
                lines,
                start as int,
                end as int,
                cmd.replacement@,
                cmd.flags.all,
            ),
            start <= row,
            row <= last + 1 || row == start,
            result_views(results@) == goal.take(row - start),
            start <= last ==> replaced_in(goal.take(row - start)) <= buffer::bytes_above(
                lines,
                row as int,
            ),
        decreases last + 1 - row,
    {
        let line = match rope::rope_line(&ed.buffer, row) {
            Some(s) => s,
            None => "",
        };
        let one = replace_in_line(&re, line, cmd.replacement.as_str(), cmd.flags.all);
        let ghost before = results@;
        results.push(one);
        proof {
            let k = row - start;
            assert(goal[k] == (one.0@, one.1 as int));
            assert(result_views(results@) =~= result_views(before).push(goal[k]));
            assert(goal.take(k + 1) =~= goal.take(k).push(goal[k]));
            assert(goal.take(k + 1).drop_last() =~= goal.take(k));
        }
        row = row + 1;
    }
    proof {
        assert(goal.take(row - start) =~= goal);
        if start <= last {
            buffer::lemma_bytes_above_grows(lines, row as int, total as int);
        } else {
            assert(goal.len() == 0);
        }
    }
    Ok(apply_results(ed, pat, start, results))
}

// ── Laws ────────────────────────────────────────────────────────────

/// A text without a slash, a backslash and an ampersand.
pub open spec fn plain(s: Seq<char>) -> bool {
    forall|i: int|
        0 <= i < s.len() ==> #[trigger] s[i] != '/' && s[i] != '\\' && s[i] != '&'
}

/// The next slash behind a plain stretch is the one that ends it.
proof fn lemma_next_slash(s: Seq<char>, i: int, end: int)
    requires
        0 <= i <= end <= s.len(),
        forall|k: int| i <= k < end ==> #[trigger] s[k] != '/' && s[k] != '\\',
        end < s.len() ==> s[end] == '/',
    ensures
        next_slash(s, i) == if end < s.len() {
            Some(end)
        } else {
            None::<int>
        },
    decreases end - i,
{
    if i < end {
        lemma_next_slash(s, i + 1, end);
    }
}

proof fn lemma_plain(s: Seq<char>)
    requires
        plain(s),
    ensures
        unescaped(s) == s,
        translated(s) == s,
    decreases s.len(),
{
    if s.len() > 0 {
        let rest = s.skip(1);
        assert forall|i: int| 0 <= i < rest.len() implies #[trigger] rest[i] != '/' && rest[i]
            != '\\' && rest[i] != '&' by {
            assert(s[i + 1] != '/');
        }
        lemma_plain(rest);
        assert(s[0] != '/');
        assert(seq![s[0]] + rest =~= s);
    }
}

/// A command of plain texts means what it says: its pattern, its replacement
/// and its flags are the texts between the slashes.
pub proof fn law_plain_command(pat: Seq<char>, with: Seq<char>, flags: Seq<char>)
    requires
        pat.len() > 0,
        plain(pat),
        plain(with),
        forall|i: int| 0 <= i < flags.len() ==> is_flag(#[trigger] flags[i]),
    ensures
        parsed(seq!['/'] + pat + seq!['/'] + with + seq!['/'] + flags) == Ok::<
            (Option<Seq<char>>, Seq<char>, SubstFlags),
            Seq<char>,
        >((Some(pat), with, flags_of(flags))),
{
    let s = seq!['/'] + pat + seq!['/'] + with + seq!['/'] + flags;
    let t = s.skip(1);
    let a = pat.len() as int;
    let b = a + 1 + with.len();
    assert(t =~= pat + seq!['/'] + with + seq!['/'] + flags);
    assert forall|k: int| 0 <= k < a implies #[trigger] t[k] != '/' && t[k] != '\\' by {
        assert(pat[k] != '/');
    }
    assert forall|k: int| a + 1 <= k < b implies #[trigger] t[k] != '/' && t[k] != '\\' by {
        assert(with[k - a - 1] != '/');
    }
    lemma_next_slash(t, 0, a);
    lemma_next_slash(t, a + 1, b);
    assert(t.take(a) =~= pat);
    assert(t.subrange(a + 1, b) =~= with);
    assert(t.skip(b + 1) =~= flags);
    assert(plain(flags));
    lemma_plain(pat);
    lemma_plain(with);
    lemma_plain(flags);
    let p = |c: char| !is_flag(c);
    assert forall|k: int| 0 <= k < flags.len() implies !p(#[trigger] flags[k]) by {
        assert(is_flag(flags[k]));
    }
    buffer::lemma_first_where(flags, p, flags.len() as int);
}

/// True when a text ends in a backslash that escapes what would follow it: in
/// an odd run of backslashes.
pub open spec fn ends_in_escape(s: Seq<char>) -> bool
    decreases s.len(),
{
    s.len() > 0 && s.last() == '\\' && !ends_in_escape(s.drop_last())
}

/// True when a replacement ends in a reference.
pub open spec fn ends_in_reference(s: Seq<char>) -> bool {
    &&& s.len() > 0
    &&& if ends_in_escape(s.drop_last()) {
        '1' <= s.last() <= '9'
    } else {
        s.last() == '&'
    }
}

/// What a text ends in does not depend on what stands before it.
proof fn lemma_ends_behind(a: Seq<char>, b: Seq<char>)
    requires
        !ends_in_escape(a),
    ensures
        ends_in_escape(a + b) == ends_in_escape(b),
        b.len() > 0 ==> ends_in_reference(a + b) == ends_in_reference(b),
    decreases b.len(),
{
    if b.len() == 0 {
        assert(a + b =~= a);
    } else {
        lemma_ends_behind(a, b.drop_last());
        assert((a + b).drop_last() =~= a + b.drop_last());
    }
}

/// Two replacements, one behind the other, are translated one by one. The first
/// must not end in a backslash that escapes the start of the second, nor in a
/// reference that needs braces because of it.
pub proof fn law_translation_in_parts(a: Seq<char>, b: Seq<char>)
    requires
        !ends_in_escape(a),
        !(ends_in_reference(a) && translated(b).len() > 0 && name_char(translated(b)[0])),
    ensures
        translated(a + b) == translated(a) + translated(b),
    decreases a.len(),
{
    if a.len() == 0 {
        assert(a + b =~= b);
        assert(translated(a) + translated(b) =~= translated(b));
    } else {
        reveal_with_fuel(ends_in_escape, 3);
        let k: int = if a[0] == '\\' {
            2
        } else {
            1
        };
        let head = a.take(k);
        let tail = a.skip(k);
        assert(a =~= head + tail);
        lemma_ends_behind(head, tail);
        law_translation_in_parts(tail, b);
        assert((a + b).skip(k) =~= tail + b);
        assert((a + b)[0] == a[0]);
        let rest = translated(tail);
        if tail.len() == 0 {
            assert(a =~= head);
            assert(tail + b =~= b);
        } else {
            lemma_not_empty(tail);
            assert((rest + translated(b))[0] == rest[0]);
        }
        if k == 2 {
            assert((a + b)[1] == a[1]);
        }
        assert(translated(a + b) =~= translated(a) + translated(b));
    }
}

/// A replacement that does not end in an escape has a translation that is not
/// empty, unless it is empty itself.
proof fn lemma_not_empty(s: Seq<char>)
    requires
        s.len() > 0,
        !ends_in_escape(s),
    ensures
        translated(s).len() > 0,
{
    reveal_with_fuel(ends_in_escape, 2);
}

/// A substitution changes no line outside its range, no more lines than it
/// makes replacements, and none where it makes no replacement.
pub proof fn law_substitution_counts(
    lines: Seq<Seq<char>>,
    start: int,
    r: Seq<(Seq<char>, int)>,
)
    requires
        forall|k: int| 0 <= k < r.len() ==> (#[trigger] r[k]).1 >= 0,
    ensures
        0 <= changed_in(r) <= replaced_in(r),
        changed_in(r) <= r.len(),
        changed_in(r) == 0 ==> replaced_in(r) == 0,
        replaced_in(r) == 0 ==> lines_with(lines, start, r) == lines,
        forall|i: int|
            0 <= i < lines.len() && !(start <= i < start + r.len()) ==> #[trigger] lines_with(
                lines,
                start,
                r,
            )[i] == lines[i],
    decreases r.len(),
{
    lemma_replaced_grows(r, 0, r.len() as int);
    assert(r.take(r.len() as int) =~= r);
    if r.len() > 0 {
        law_substitution_counts(lines, start, r.drop_last());
        lemma_replaced_grows(r, r.len() - 1, r.len() as int);
        assert(r.take(r.len() - 1) =~= r.drop_last());
    }
    if replaced_in(r) == 0 {
        let before = lines_with(lines, start, r.drop_last());
        assert forall|i: int| 0 <= i < lines.len() implies #[trigger] lines_with(
            lines,
            start,
            r,
        )[i] == lines[i] by {
            if r.len() > 0 {
                assert(before[i] == lines[i]);
            }
        }
        assert(lines_with(lines, start, r) =~= lines);
    }
}

/// One undo takes a whole substitution back.
pub proof fn law_substitution_is_undone<H: Host>(
    b: Editor<RopeBuffer, H>,
    a: Editor<RopeBuffer, H>,
    back: Editor<RopeBuffer, H>,
    out: SubstituteOutcome,
    pat: Seq<char>,
    start: int,
    r: Seq<(Seq<char>, int)>,
)
    requires
        substituted(b, a, out, pat, start, r),
        out.replacements > 0,
        editing::undone(a, back),
        edits::clean(rope::buffer_lines(b.buffer)),
        rope::buffer_lines(b.buffer).len() <= u32::MAX,
    ensures
        rope::buffer_lines(back.buffer) == rope::buffer_lines(b.buffer),
{
    let entries = editing::entry_views(a.undo_stack@);
    assert(entries.len() == a.undo_stack@.len());
    assert(entries.last() == editing::entry_of(b.buffer));
    let lines = rope::buffer_lines(b.buffer);
    assert(b.buffer.rows() =~= lines);
    edits::lemma_split_join(lines);
}

/// The lines after logged changes are made in turn.
pub open spec fn replayed(lines: Seq<Seq<char>>, ops: Seq<(Pos, Pos, Seq<char>)>) -> Seq<Seq<char>>
    decreases ops.len(),
{
    if ops.len() == 0 {
        lines
    } else {
        let op = ops[0];
        replayed(
            buffer_impl::range_replaced(
                lines,
                buffer_impl::as_place(op.0),
                buffer_impl::as_place(op.1),
                op.2,
            ).0,
            ops.skip(1),
        )
    }
}

/// The pieces of every line.
spec fn all_pieces(lines: Seq<Seq<char>>) -> Seq<Seq<char>>
    decreases lines.len(),
{
    if lines.len() == 0 {
        lines
    } else {
        all_pieces(lines.drop_last()) + buffer::split_text(lines.last())
    }
}

proof fn lemma_pieces_of_join(lines: Seq<Seq<char>>)
    requires
        lines.len() > 0,
    ensures
        buffer::split_text(buffer::join_text(lines)) == all_pieces(lines),
    decreases lines.len(),
{
    let head = lines.drop_last();
    let last = buffer::split_text(lines.last());
    if lines.len() == 1 {
        assert(all_pieces(head) + last =~= last);
    } else {
        lemma_pieces_of_join(head);
        let t = buffer::join_text(head) + seq!['\n'];
        assert(t.drop_last() =~= buffer::join_text(head));
        edits::lemma_split_concat(t, lines.last());
        edits::lemma_split_clean(lines.last());
        assert(buffer::split_text(t).drop_last() =~= all_pieces(head));
        assert(Seq::<char>::empty() + last[0] =~= last[0]);
        assert(all_pieces(head) + seq![last[0]] + last.skip(1) =~= all_pieces(head) + last);
    }
}

proof fn lemma_pieces_of_clean(lines: Seq<Seq<char>>)
    requires
        forall|i: int| 0 <= i < lines.len() ==> edits::unbroken(#[trigger] lines[i]),
    ensures
        all_pieces(lines) == lines,
    decreases lines.len(),
{
    if lines.len() > 0 {
        let head = lines.drop_last();
        assert forall|i: int| 0 <= i < head.len() implies edits::unbroken(#[trigger] head[i]) by {
            assert(edits::unbroken(lines[i]));
        }
        lemma_pieces_of_clean(head);
        assert(edits::unbroken(lines[lines.len() - 1]));
        edits::lemma_split_unbroken(lines.last());
        assert(head + seq![lines.last()] =~= lines);
    }
}

proof fn lemma_pieces_concat(a: Seq<Seq<char>>, b: Seq<Seq<char>>)
    ensures
        all_pieces(a + b) == all_pieces(a) + all_pieces(b),
    decreases b.len(),
{
    if b.len() == 0 {
        assert(a + b =~= a);
        assert(all_pieces(a) + b =~= all_pieces(a));
    } else {
        lemma_pieces_concat(a, b.drop_last());
        assert((a + b).drop_last() =~= a + b.drop_last());
        assert(all_pieces(a) + (all_pieces(b.drop_last()) + buffer::split_text(b.last()))
            =~= all_pieces(a) + all_pieces(b.drop_last()) + buffer::split_text(b.last()));
    }
}

/// The logged change of a row puts the pieces of its text in place of the row.
proof fn lemma_row_change(lines: Seq<Seq<char>>, now: Seq<Seq<char>>, row: int, t: Seq<char>)
    requires
        0 <= row < lines.len(),
        row < now.len(),
        row <= u32::MAX,
        lines[row].len() <= u32::MAX,
        now[row] == lines[row],
    ensures
        ({
            let op = row_change(lines, row, t);
            buffer_impl::range_replaced(
                now,
                buffer_impl::as_place(op.0),
                buffer_impl::as_place(op.1),
                op.2,
            ).0 == now.take(row) + buffer::split_text(t) + now.skip(row + 1)
        }),
{
    let line = lines[row];
    let from = (row, 0int);
    let to = (row, line.len() as int);
    assert(buffer::clamp(now, from) == from && buffer::clamp(now, to) == to);
    if line.len() == 0 {
        assert(line.take(0) + t + line.skip(0) =~= t);
    } else {
        let rest = buffer::cut(now, from, to);
        let none = line.take(0) + line.skip(line.len() as int);
        assert(none =~= Seq::<char>::empty());
        assert(rest =~= now.take(row) + seq![none] + now.skip(row + 1));
        assert(rest[row] == none);
        assert(none.take(0) + t + none.skip(0) =~= t);
        assert(rest.take(row) =~= now.take(row));
        assert(rest.skip(row + 1) =~= now.skip(row + 1));
    }
}

#[verifier::spinoff_prover]
#[verifier::rlimit(50)]
proof fn lemma_replayed(
    lines: Seq<Seq<char>>,
    now: Seq<Seq<char>>,
    start: int,
    r: Seq<(Seq<char>, int)>,
)
    requires
        edits::clean(lines),
        lines.len() <= u32::MAX,
        forall|i: int| 0 <= i < lines.len() ==> (#[trigger] lines[i]).len() <= u32::MAX,
        0 <= start,
        start + r.len() <= lines.len(),
        start + r.len() <= now.len(),
        now.take(start + r.len()) == lines.take(start + r.len()),
    ensures
        replayed(now, logged(lines, start, r)) == all_pieces(
            lines_with(lines, start, r).take(start + r.len()),
        ) + now.skip(start + r.len()),
    decreases r.len(),
{
    let end = start + r.len();
    let all = lines_with(lines, start, r);
    if r.len() == 0 {
        let kept = lines.take(start);
        assert(all.take(start) =~= kept);
        assert forall|i: int| 0 <= i < kept.len() implies edits::unbroken(#[trigger] kept[i]) by {
            assert(edits::unbroken(lines[i]));
        }
        lemma_pieces_of_clean(kept);
        assert(kept + now.skip(start) =~= now);
    } else {
        let row = end - 1;
        let fewer = r.drop_last();
        let above = lines_with(lines, start, fewer);
        let ops = logged(lines, start, r);
        assert(all.take(end).drop_last() =~= above.take(row));
        assert(now[row] == now.take(end)[row]);
        assert(lines.take(end)[row] == lines[row]);
        assert(now.take(row) =~= now.take(end).take(row));
        assert(lines.take(end).take(row) =~= lines.take(row));
        if r.last().1 > 0 {
            let t = r.last().0;
            let next = now.take(row) + buffer::split_text(t) + now.skip(row + 1);
            lemma_row_change(lines, now, row, t);
            assert(ops.skip(1) =~= logged(lines, start, fewer));
            assert(next.take(row) =~= lines.take(row));
            lemma_replayed(lines, next, start, fewer);
            assert(next.skip(row) =~= buffer::split_text(t) + now.skip(end));
            assert(all.take(end).last() == t);
            assert(all_pieces(above.take(row)) + (buffer::split_text(t) + now.skip(end))
                =~= all_pieces(above.take(row)) + buffer::split_text(t) + now.skip(end));
        } else {
            lemma_replayed(lines, now, start, fewer);
            assert(edits::unbroken(lines[row]));
            edits::lemma_split_unbroken(lines[row]);
            assert(all.take(end).last() == lines[row]);
            assert(now.skip(row) =~= seq![lines[row]] + now.skip(end));
            assert(all_pieces(above.take(row)) + (seq![lines[row]] + now.skip(end)) =~= all_pieces(
                above.take(row),
            ) + seq![lines[row]] + now.skip(end));
        }
    }
}

/// The logged changes of a substitution are exact: made in turn, they lead from
/// the text before it to the text after it.
pub proof fn law_logged_substitution_is_exact(
    lines: Seq<Seq<char>>,
    start: int,
    r: Seq<(Seq<char>, int)>,
)
    requires
        edits::clean(lines),
        lines.len() <= u32::MAX,
        forall|i: int| 0 <= i < lines.len() ==> (#[trigger] lines[i]).len() <= u32::MAX,
        0 <= start,
        start + r.len() <= lines.len(),
    ensures
        replayed(lines, logged(lines, start, r)) == buffer::split_text(
            buffer::join_text(lines_with(lines, start, r)),
        ),
{
    let end = start + r.len();
    let all = lines_with(lines, start, r);
    lemma_replayed(lines, lines, start, r);
    lemma_pieces_of_join(all);
    let rest = lines.skip(end);
    assert(all =~= all.take(end) + rest);
    assert forall|i: int| 0 <= i < rest.len() implies edits::unbroken(#[trigger] rest[i]) by {
        assert(edits::unbroken(lines[end + i]));
    }
    lemma_pieces_of_clean(rest);
    lemma_pieces_concat(all.take(end), rest);
}

} // verus!
