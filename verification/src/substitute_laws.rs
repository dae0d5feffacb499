//! What the substitute command promises, in terms of what the user types and of
//! the text.
use hjkl_buffer::Buffer as RopeBuffer;
use vstd::prelude::*;

use crate::buffer;
use crate::editor::Editor;
use crate::pattern;
use crate::rope;
use crate::substitute;
use crate::substitute::{SubstituteCmd, SubstituteOutcome};
use crate::types::Host;

verus! {

// ── What a command does ─────────────────────────────────────────────

/// The regular expression that a command stands for: its own pattern, or the
/// last one where it has none. Case does not count where flag `i` says so, or the
/// settings do; flag `I` says that it counts, whatever else is said.
pub open spec fn expression_of<H: Host>(e: Editor<RopeBuffer, H>, cmd: SubstituteCmd) -> Option<
    Seq<char>,
> {
    let pat = if cmd.pattern is Some {
        Some(cmd.pattern->0@)
    } else if e.vim.last_search is Some {
        Some(e.vim.last_search->0@)
    } else {
        None
    };
    if pat is Some && !cmd.flags.case_sensitive && (cmd.flags.ignore_case
        || e.settings.ignore_case) {
        Some("(?i)"@ + pat->0)
    } else {
        pat
    }
}

/// A row of a range that an expression matches.
pub open spec fn is_hit(
    re: regex::Regex,
    lines: Seq<Seq<char>>,
    start: int,
    end: int,
    i: int,
) -> bool {
    0 <= i < lines.len() && start <= i <= end && pattern::matches_in(re, lines[i]).len() > 0
}

/// How many rows up to `n` an expression matches.
pub open spec fn hits_below(
    re: regex::Regex,
    lines: Seq<Seq<char>>,
    start: int,
    end: int,
    n: int,
) -> int
    decreases n,
{
    if n <= 0 {
        0
    } else {
        hits_below(re, lines, start, end, n - 1) + if is_hit(re, lines, start, end, n - 1) {
            1int
        } else {
            0
        }
    }
}

/// How many matches the rows up to `n` have that a command replaces.
pub open spec fn matches_below(
    re: regex::Regex,
    lines: Seq<Seq<char>>,
    start: int,
    end: int,
    all: bool,
    n: int,
) -> int
    decreases n,
{
    if n <= 0 {
        0
    } else {
        matches_below(re, lines, start, end, all, n - 1) + if !is_hit(
            re,
            lines,
            start,
            end,
            n - 1,
        ) {
            0int
        } else if all {
            pattern::matches_in(re, lines[n - 1]).len() as int
        } else {
            1
        }
    }
}

/// A command without an expression is refused, and so is one whose expression
/// does not compile; neither changes anything. Every other command succeeds.
/// Case counts exactly as the flags `i` and `I` and then the settings say.
pub proof fn law_case_of_a_command<H: Host>(
    b: Editor<RopeBuffer, H>,
    a: Editor<RopeBuffer, H>,
    cmd: SubstituteCmd,
    start: int,
    end: int,
    r: Result<SubstituteOutcome, String>,
)
    requires
        substitute::command_applied(b, a, cmd, start, end, r),
    ensures
        match expression_of(b, cmd) {
            None => r is Err && a == b,
            Some(x) => match pattern::compiled(x) {
                Err(_) => r is Err && a == b,
                Ok(_) => r is Ok,
            },
        },
{
}

/// The rows of a range that an expression matches get their first match
/// replaced, or all of them with flag `g`, and every other row stays as it is.
/// The outcome counts the rows and the replacements. The cursor ends at the start
/// of the last such row, and the text before is one undo step.
pub proof fn law_rows_of_a_command<H: Host>(
    b: Editor<RopeBuffer, H>,
    a: Editor<RopeBuffer, H>,
    cmd: SubstituteCmd,
    start: int,
    end: int,
    r: Result<SubstituteOutcome, String>,
    re: regex::Regex,
)
    requires
        substitute::command_applied(b, a, cmd, start, end, r),
        !b.settings.readonly,
        0 <= start,
        expression_of(b, cmd) matches Some(x) && pattern::compiled(x) == Ok::<
            regex::Regex,
            regex::Error,
        >(re),
    ensures
        r is Ok,
        ({
            let lines = rope::buffer_lines(b.buffer);
            let n = lines.len() as int;
            let now = Seq::new(
                lines.len(),
                |i: int|
                    if is_hit(re, lines, start, end, i) {
                        if cmd.flags.all {
                            pattern::all_replaced(re, lines[i], cmd.replacement@)
                        } else {
                            pattern::first_replaced(re, lines[i], cmd.replacement@)
                        }
                    } else {
                        lines[i]
                    },
            );
            let out = r->Ok_0;
            &&& out.lines_changed == hits_below(re, lines, start, end, n)
            &&& out.replacements == matches_below(re, lines, start, end, cmd.flags.all, n)
            &&& if exists|i: int| is_hit(re, lines, start, end, i) {
                &&& rope::buffer_lines(a.buffer) == buffer::split_text(buffer::join_text(now))
                &&& exists|last: int| #[trigger]
                    is_hit(re, lines, start, end, last) && (forall|i: int| #[trigger]
                        is_hit(re, lines, start, end, i) ==> i <= last) && rope::buffer_cursor(
                        a.buffer,
                    ) == buffer::clamp(rope::buffer_lines(a.buffer), (last, 0int))
                &&& a.undo_stack@.len() > 0
                &&& a.vim.last_search is Some
                &&& a.vim.last_search->0@ == if cmd.pattern is Some {
                    cmd.pattern->0@
                } else {
                    b.vim.last_search->0@
                }
            } else {
                &&& a.buffer == b.buffer
                &&& a.vim == b.vim
                &&& out.replacements == 0
                &&& out.lines_changed == 0
            }
        }),
{
    let lines = rope::buffer_lines(b.buffer);
    let n = lines.len() as int;
    let all = cmd.flags.all;
    let res = substitute::range_results(re, lines, start, end, cmd.replacement@, all);
    let out = r->Ok_0;
    lemma_counts(re, lines, start, end, cmd.replacement@, all, n);
    assert(res.take(res.len() as int) =~= res);
    assert(results_below(res, lines, start, n) =~= res);
    lemma_no_hits(re, lines, start, end, all, n);
    if exists|i: int| is_hit(re, lines, start, end, i) {
        let i = choose|i: int| is_hit(re, lines, start, end, i);
        lemma_hit_counts(re, lines, start, end, all, n, i);
        let now = Seq::new(
            lines.len(),
            |i: int|
                if is_hit(re, lines, start, end, i) {
                    if all {
                        pattern::all_replaced(re, lines[i], cmd.replacement@)
                    } else {
                        pattern::first_replaced(re, lines[i], cmd.replacement@)
                    }
                } else {
                    lines[i]
                },
        );
        assert(substitute::lines_with(lines, start, res) =~= now);
        lemma_last_hit(re, lines, start, end, cmd.replacement@, all);
        let last = start + substitute::last_changed(res);
        assert(is_hit(re, lines, start, end, last));
        assert(a.undo_stack@.len() == crate::editing::entry_views(a.undo_stack@).len());
    }
}

/// The results of the rows below `n`.
spec fn results_below(
    res: Seq<(Seq<char>, int)>,
    lines: Seq<Seq<char>>,
    start: int,
    n: int,
) -> Seq<(Seq<char>, int)> {
    let k = n - start;
    if k <= 0 {
        Seq::<(Seq<char>, int)>::empty()
    } else if k >= res.len() {
        res
    } else {
        res.take(k)
    }
}

proof fn lemma_counts(
    re: regex::Regex,
    lines: Seq<Seq<char>>,
    start: int,
    end: int,
    with: Seq<char>,
    all: bool,
    n: int,
)
    requires
        0 <= start,
        0 <= n <= lines.len(),
    ensures
        ({
            let res = substitute::range_results(re, lines, start, end, with, all);
            let part = results_below(res, lines, start, n);
            &&& substitute::changed_in(part) == hits_below(re, lines, start, end, n)
            &&& substitute::replaced_in(part) == matches_below(re, lines, start, end, all, n)
        }),
    decreases n,
{
    let res = substitute::range_results(re, lines, start, end, with, all);
    if n > 0 {
        lemma_counts(re, lines, start, end, with, all, n - 1);
        let part = results_below(res, lines, start, n);
        let less = results_below(res, lines, start, n - 1);
        let k = n - start;
        if 0 < k <= res.len() {
            assert(part.drop_last() =~= less);
            assert(part.last() == res[k - 1]);
        } else {
            assert(part =~= less);
        }
    }
}

proof fn lemma_no_hits(
    re: regex::Regex,
    lines: Seq<Seq<char>>,
    start: int,
    end: int,
    all: bool,
    n: int,
)
    ensures
        (forall|i: int| !is_hit(re, lines, start, end, i)) ==> {
            &&& hits_below(re, lines, start, end, n) == 0
            &&& matches_below(re, lines, start, end, all, n) == 0
        },
        0 <= hits_below(re, lines, start, end, n),
        0 <= matches_below(re, lines, start, end, all, n),
    decreases n,
{
    if n > 0 {
        lemma_no_hits(re, lines, start, end, all, n - 1);
    }
}

proof fn lemma_hit_counts(
    re: regex::Regex,
    lines: Seq<Seq<char>>,
    start: int,
    end: int,
    all: bool,
    n: int,
    i: int,
)
    requires
        is_hit(re, lines, start, end, i),
        i < n,
    ensures
        matches_below(re, lines, start, end, all, n) > 0,
    decreases n,
{
    lemma_no_hits(re, lines, start, end, all, n - 1);
    if i < n - 1 {
        lemma_hit_counts(re, lines, start, end, all, n - 1, i);
    }
}

proof fn lemma_last_hit(
    re: regex::Regex,
    lines: Seq<Seq<char>>,
    start: int,
    end: int,
    with: Seq<char>,
    all: bool,
)
    requires
        0 <= start,
        exists|i: int| is_hit(re, lines, start, end, i),
    ensures
        ({
            let res = substitute::range_results(re, lines, start, end, with, all);
            let last = start + substitute::last_changed(res);
            &&& is_hit(re, lines, start, end, last)
            &&& forall|i: int| #[trigger] is_hit(re, lines, start, end, i) ==> i <= last
        }),
{
    let res = substitute::range_results(re, lines, start, end, with, all);
    let w = choose|i: int| is_hit(re, lines, start, end, i);
    assert(res[w - start].1 > 0);
    lemma_last_changed(res, w - start);
    assert forall|i: int| #[trigger] is_hit(re, lines, start, end, i) implies i <= start
        + substitute::last_changed(res) by {
        assert(res[i - start].1 > 0);
        lemma_last_changed(res, i - start);
    }
}

proof fn lemma_last_changed(r: Seq<(Seq<char>, int)>, i: int)
    requires
        0 <= i < r.len(),
        r[i].1 > 0,
    ensures
        i <= substitute::last_changed(r) < r.len(),
        r[substitute::last_changed(r)].1 > 0,
    decreases r.len(),
{
    if r.last().1 <= 0 {
        assert(r.drop_last()[i] == r[i]);
        lemma_last_changed(r.drop_last(), i);
    }
}

// ── How a command is read ───────────────────────────────────────────

/// A text as it is typed between slashes: with a backslash before each slash.
pub open spec fn typed(t: Seq<char>) -> Seq<char>
    decreases t.len(),
{
    if t.len() == 0 {
        t
    } else {
        (if t[0] == '/' {
            seq!['\\', '/']
        } else {
            seq![t[0]]
        }) + typed(t.skip(1))
    }
}

proof fn lemma_typed(t: Seq<char>, pre: Seq<char>, rest: Seq<char>)
    requires
        !t.contains('\\'),
    ensures
        substitute::unescaped(typed(t)) == t,
        substitute::next_slash(pre + typed(t) + seq!['/'] + rest, pre.len() as int) == Some(
            (pre.len() + typed(t).len()) as int,
        ),
        substitute::next_slash(pre + typed(t), pre.len() as int) is None,
    decreases t.len(),
{
    let s = pre + typed(t) + seq!['/'] + rest;
    let u = pre + typed(t);
    if t.len() > 0 {
        assert(t.contains(t[0]));
        let tail = t.skip(1);
        let step = if t[0] == '/' {
            seq!['\\', '/']
        } else {
            seq![t[0]]
        };
        assert forall|c: char| tail.contains(c) implies t.contains(c) by {
            let i = choose|i: int| 0 <= i < tail.len() && tail[i] == c;
            assert(t[i + 1] == c);
        }
        lemma_typed(tail, pre + step, rest);
        assert(pre + step + typed(tail) + seq!['/'] + rest =~= s);
        assert(pre + step + typed(tail) =~= u);
        assert(s[pre.len() as int] == step[0]);
        assert(u[pre.len() as int] == step[0]);
        assert(typed(t).skip(step.len() as int) =~= typed(tail));
        assert(typed(t)[0] == step[0]);
        if t[0] == '/' {
            assert(typed(t)[1] == '/');
            reveal_with_fuel(substitute::next_slash, 2);
        }
        assert(seq![t[0]] + tail =~= t);
        assert(substitute::unescaped(typed(t)) =~= t);
    } else {
        assert(s[pre.len() as int] == '/');
        assert(u.len() == pre.len());
    }
}

/// A command is read as it was typed: a pattern and a replacement with a
/// backslash before each slash come out as they are, an empty pattern as none,
/// and each of the letters `g`, `i`, `I` and `c` sets its own flag and no other.
/// (Backslashes of their own and ampersands have a meaning; see below.)
pub proof fn law_command_is_read_as_typed(
    pat: Seq<char>,
    with: Seq<char>,
    flags: Seq<char>,
    r: Result<SubstituteCmd, String>,
)
    requires
        !pat.contains('\\'),
        !with.contains('\\'),
        !with.contains('&'),
        forall|i: int|
            0 <= i < flags.len() ==> #[trigger] flags[i] == 'g' || flags[i] == 'i' || flags[i] == 'I'
                || flags[i] == 'c',
        substitute::command_read(
            seq!['/'] + typed(pat) + seq!['/'] + typed(with) + seq!['/'] + flags,
            r,
        ),
    ensures
        r matches Ok(cmd) && {
            &&& pat.len() == 0 ==> cmd.pattern is None
            &&& pat.len() > 0 ==> cmd.pattern is Some && cmd.pattern->0@ == pat
            &&& cmd.replacement@ == with
            &&& cmd.flags.all == flags.contains('g')
            &&& cmd.flags.ignore_case == flags.contains('i')
            &&& cmd.flags.case_sensitive == flags.contains('I')
            &&& cmd.flags.confirm == flags.contains('c')
        },
{
    let s = seq!['/'] + typed(pat) + seq!['/'] + typed(with) + seq!['/'] + flags;
    lemma_fields(pat, with, flags);
    assert(s.skip(1) =~= typed(pat) + seq!['/'] + typed(with) + seq!['/'] + flags);
    let p = |c: char| !substitute::is_flag(c);
    assert forall|k: int| 0 <= k < flags.len() implies !p(#[trigger] flags[k]) by {}
    buffer::lemma_first_where(flags, p, flags.len() as int);
    assert forall|i: int| 0 <= i < with.len() implies #[trigger] with[i] != '\\' && with[i] != '&' by {
        assert(with.contains(with[i]));
    }
    lemma_no_reference(with);
    if pat.len() > 0 {
        assert(typed(pat).len() > 0);
    }
}

proof fn lemma_fields(pat: Seq<char>, with: Seq<char>, flags: Seq<char>)
    requires
        !pat.contains('\\'),
        !with.contains('\\'),
        !flags.contains('\\'),
    ensures
        substitute::fields(typed(pat) + seq!['/'] + typed(with) + seq!['/'] + flags) == seq![
            pat,
            with,
            flags,
        ],
        substitute::fields(typed(pat) + seq!['/'] + typed(with)) == seq![pat, with],
        substitute::fields(typed(pat)) == seq![pat],
{
    let none = Seq::<char>::empty();
    let t = typed(pat) + seq!['/'] + typed(with) + seq!['/'] + flags;
    let u = typed(pat) + seq!['/'] + typed(with);
    let a = typed(pat).len() as int;
    let b = a + 1 + typed(with).len();
    lemma_typed(pat, none, typed(with) + seq!['/'] + flags);
    lemma_typed(with, typed(pat) + seq!['/'], flags);
    assert(none + typed(pat) + seq!['/'] + (typed(with) + seq!['/'] + flags) =~= t);
    assert(t.take(a) =~= typed(pat));
    assert(t.subrange(a + 1, b) =~= typed(with));
    assert(t.skip(b + 1) =~= flags);
    lemma_unescaped(flags);
    lemma_typed(pat, none, typed(with));
    assert(none + typed(pat) + seq!['/'] + typed(with) =~= u);
    assert(u.take(a) =~= typed(pat));
    assert(u.skip(a + 1) =~= typed(with));
    assert(none + typed(pat) =~= typed(pat));
}

proof fn lemma_unescaped(t: Seq<char>)
    requires
        !t.contains('\\'),
    ensures
        substitute::unescaped(t) == t,
    decreases t.len(),
{
    if t.len() > 0 {
        assert(t.contains(t[0]));
        let tail = t.skip(1);
        assert forall|c: char| tail.contains(c) implies t.contains(c) by {
            let i = choose|i: int| 0 <= i < tail.len() && tail[i] == c;
            assert(t[i + 1] == c);
        }
        lemma_unescaped(tail);
        assert(seq![t[0]] + tail =~= t);
    }
}

proof fn lemma_no_reference(t: Seq<char>)
    requires
        forall|i: int| 0 <= i < t.len() ==> #[trigger] t[i] != '\\' && t[i] != '&',
    ensures
        substitute::translated(t) == t,
    decreases t.len(),
{
    if t.len() > 0 {
        let tail = t.skip(1);
        assert forall|i: int| 0 <= i < tail.len() implies #[trigger] tail[i] != '\\' && tail[i]
            != '&' by {
            assert(t[i + 1] != '&');
        }
        lemma_no_reference(tail);
        assert(t[0] != '&');
        assert(seq![t[0]] + tail =~= t);
    }
}

/// A command that does not start with a slash is refused, and so is one without
/// a slash between pattern and replacement, and one with a letter among its
/// flags that is none of `g`, `i`, `I` and `c`. The flags can be left out with
/// their slash.
pub proof fn law_bad_commands_are_refused(
    pat: Seq<char>,
    with: Seq<char>,
    flags: Seq<char>,
    s: Seq<char>,
    r: Result<SubstituteCmd, String>,
)
    requires
        !pat.contains('\\'),
        !with.contains('\\'),
        !flags.contains('\\'),
        substitute::command_read(s, r),
    ensures
        s.len() == 0 || s[0] != '/' ==> r is Err,
        s == seq!['/'] + typed(pat) ==> r is Err,
        s == seq!['/'] + typed(pat) + seq!['/'] + typed(with) + seq!['/'] + flags ==> (r is Err
            <==> exists|i: int|
            0 <= i < flags.len() && #[trigger] flags[i] != 'g' && flags[i] != 'i' && flags[i] != 'I'
                && flags[i] != 'c'),
        s == seq!['/'] + typed(pat) + seq!['/'] + typed(with) ==> (r matches Ok(cmd)
            && !cmd.flags.all && !cmd.flags.ignore_case && !cmd.flags.case_sensitive
            && !cmd.flags.confirm),
{
    lemma_fields(pat, with, flags);
    let p = |c: char| !substitute::is_flag(c);
    if s == seq!['/'] + typed(pat) {
        assert(s.skip(1) =~= typed(pat));
    }
    if s == seq!['/'] + typed(pat) + seq!['/'] + typed(with) {
        assert(s.skip(1) =~= typed(pat) + seq!['/'] + typed(with));
        assert(buffer::first_where(Seq::<char>::empty(), p) == 0);
    }
    if s == seq!['/'] + typed(pat) + seq!['/'] + typed(with) + seq!['/'] + flags {
        assert(s.skip(1) =~= typed(pat) + seq!['/'] + typed(with) + seq!['/'] + flags);
        buffer::lemma_first_where_range(flags, p);
        let bad = buffer::first_where(flags, p);
        if bad < flags.len() {
            assert(p(flags[bad]));
        } else {
            assert forall|k: int| 0 <= k < flags.len() implies substitute::is_flag(
                #[trigger] flags[k],
            ) by {
                assert(!p(flags[k]));
            }
        }
    }
}

// ── How a replacement is translated ─────────────────────────────────

/// A letter or digit of ASCII, or an underscore.
pub open spec fn joins_a_name(c: char) -> bool {
    ||| c == '_'
    ||| '0' <= c <= '9'
    ||| 'a' <= c <= 'z'
    ||| 'A' <= c <= 'Z'
}

/// A reference to a group in front of a translated text: in braces where the text
/// would else be read on as its name.
pub open spec fn refers(t: Seq<char>, group: char, rest: Seq<char>) -> bool {
    if rest.len() > 0 && joins_a_name(rest[0]) {
        t == seq!['$', '{', group, '}'] + rest
    } else {
        t == seq!['$', group] + rest
    }
}

/// In a replacement an ampersand refers to the whole match, a backslash with a
/// digit from 1 to 9 to the group of that number, and a backslash with any other
/// character stands for that character. A backslash at the very end stands for
/// nothing. Every other character stands for itself.
pub proof fn law_replacement_is_translated(c: char, rest: Seq<char>)
    ensures
        ({
            let t = substitute::translated(rest);
            &&& refers(substitute::translated(seq!['&'] + rest), '0', t)
            &&& '1' <= c <= '9' ==> refers(
                substitute::translated(seq!['\\', c] + rest),
                c,
                t,
            )
            &&& !('1' <= c <= '9') ==> substitute::translated(
                seq!['\\', c] + rest,
            ) == seq![c] + t
            &&& c != '&' && c != '\\' ==> substitute::translated(seq![c] + rest) == seq![c] + t
            &&& substitute::translated(seq!['\\']).len() == 0
            &&& substitute::translated(Seq::<char>::empty()).len() == 0
        }),
{
    let t = substitute::translated(rest);
    assert(t.len() > 0 ==> joins_a_name(t[0]) == substitute::name_char(t[0]));
    assert((seq!['&'] + rest).skip(1) =~= rest);
    assert((seq!['\\', c] + rest).skip(2) =~= rest);
    assert((seq![c] + rest).skip(1) =~= rest);
}

/// The pattern that a command names: the one that was typed, or else that of the
/// last search.
pub open spec fn pattern_named<H: Host>(
    b: Editor<RopeBuffer, H>,
    cmd: SubstituteCmd,
    p: Seq<char>,
) -> bool {
    match (cmd.pattern, b.vim.last_search) {
        (Some(s), _) => p == s@,
        (None, Some(s)) => p == s@,
        (None, None) => false,
    }
}

/// A refused command says why: there is no pattern, or the pattern is bad, in the
/// words of what found it so.
pub proof fn law_refused_commands_say_why<H: Host>(
    b: Editor<RopeBuffer, H>,
    a: Editor<RopeBuffer, H>,
    cmd: SubstituteCmd,
    start: int,
    end: int,
    r: Result<SubstituteOutcome, String>,
)
    requires
        substitute::command_applied(b, a, cmd, start, end, r),
    ensures
        cmd.pattern is None && b.vim.last_search is None ==> r is Err && r->Err_0@
            == "no previous regular expression"@,
        expression_of(b, cmd) matches Some(x) ==> (pattern::compiled(x) matches Err(e)
            ==> r is Err && r->Err_0@ == "bad pattern: "@ + crate::types::regex_error_text(e)),
{
}

/// A command on a text that refuses edits replaces nothing and changes nothing. One
/// that finds nothing to replace leaves everything as it is but for what was to be
/// redone. One that replaces something makes its pattern, as it was typed, the last
/// search, forward, and tells the host that the whole text is new; folds, marks,
/// registers and the mode stay.
pub proof fn law_traces_of_a_command<H: Host>(
    b: Editor<RopeBuffer, H>,
    a: Editor<RopeBuffer, H>,
    cmd: SubstituteCmd,
    start: int,
    end: int,
    out: SubstituteOutcome,
)
    requires
        substitute::command_applied(
            b,
            a,
            cmd,
            start,
            end,
            Ok::<SubstituteOutcome, String>(out),
        ),
    ensures
        b.settings.readonly ==> a == b && out.replacements == 0 && out.lines_changed == 0,
        out.replacements == 0 ==> a.buffer == b.buffer && a.vim == b.vim && a.content_dirty
            == b.content_dirty && a.change_log == b.change_log,
        out.replacements != 0 ==> {
            &&& a.vim.last_search matches Some(s) && pattern_named(b, cmd, s@)
            &&& a.vim.last_search_forward
            &&& a.vim.mode == b.vim.mode && a.vim.jump_back == b.vim.jump_back
            &&& a.content_dirty && a.cached_content is None
            &&& a.pending_content_reset && a.pending_content_edits@.len() == 0
            &&& a.redo_stack@.len() == 0
            &&& rope::buffer_folds(a.buffer) == rope::buffer_folds(b.buffer)
            &&& a.marks == b.marks && a.registers == b.registers && a.settings == b.settings
        },
{
}

} // verus!
