//! Regular expressions: the calls into the `regex` crate.
//!
//! What a pattern means is the matter of that crate: its results have names
//! here, and what is said of them beyond that is that matches come in order.
use vstd::prelude::*;

use crate::text;

verus! {

/// `regex::Regex`: a compiled pattern.
#[verifier::external_type_specification]
#[verifier::external_body]
pub struct ExRegex(regex::Regex);

/// The matches of a pattern in a text, as byte ranges, in order and without
/// overlap.
pub uninterp spec fn matches_in(re: regex::Regex, t: Seq<char>) -> Seq<(usize, usize)>;

/// The first match that starts at or after a byte offset.
pub uninterp spec fn match_from(re: regex::Regex, t: Seq<char>, from: usize) -> Option<
    (usize, usize),
>;

/// What the compiler makes of a pattern.
pub uninterp spec fn compiled(pattern: Seq<char>) -> Result<regex::Regex, regex::Error>;

/// A text with the first match of a pattern replaced; `$` in the replacement
/// refers to the groups of the match.
pub uninterp spec fn first_replaced(re: regex::Regex, t: Seq<char>, with: Seq<char>) -> Seq<char>;

/// A text with every match of a pattern replaced; `$` in the replacement
/// refers to the groups of each match.
pub uninterp spec fn all_replaced(re: regex::Regex, t: Seq<char>, with: Seq<char>) -> Seq<char>;

/// Byte ranges of a text in order: none overlaps the next, and each starts
/// after the one before it started.
pub open spec fn in_order(v: Seq<(usize, usize)>, len: int) -> bool {
    &&& forall|i: int| 0 <= i < v.len() ==> (#[trigger] v[i]).0 <= v[i].1 <= len
    &&& forall|i: int, j: int|
        0 <= i < j < v.len() ==> (#[trigger] v[i]).1 <= (#[trigger] v[j]).0 && v[i].0 < v[j].0
}

/// There are no more ranges in a text than places where one can start.
pub proof fn lemma_in_order_count(v: Seq<(usize, usize)>, len: int, n: int)
    requires
        in_order(v, len),
        0 <= n < v.len(),
    ensures
        n <= v[n].0,
        n <= len,
    decreases n,
{
    if n > 0 {
        lemma_in_order_count(v, len, n - 1);
        assert(v[n - 1].0 < v[n].0);
    }
}

/// `regex::Regex::new`: compiles a pattern, or says why it cannot. Which
/// patterns compile is not spelled out.
#[verifier::external_body]
pub(crate) fn compile(pattern: &str) -> (r: Result<regex::Regex, regex::Error>)
    ensures
        r == compiled(pattern@),
{
    regex::Regex::new(pattern)
}

/// `regex::Regex::replace`: the text with its first match replaced.
#[verifier::external_body]
pub(crate) fn replace_first(re: &regex::Regex, t: &str, with: &str) -> (s: String)
    ensures
        s@ == first_replaced(*re, t@, with@),
{
    re.replace(t, with).into_owned()
}

/// `regex::Regex::replace_all`: the text with every match replaced.
#[verifier::external_body]
pub(crate) fn replace_every(re: &regex::Regex, t: &str, with: &str) -> (s: String)
    ensures
        s@ == all_replaced(*re, t@, with@),
{
    re.replace_all(t, with).into_owned()
}

/// `regex::Regex::find_iter`: every match, as byte ranges; they come in order
/// and do not overlap.
#[verifier::external_body]
pub(crate) fn all_matches(re: &regex::Regex, t: &str) -> (v: Vec<(usize, usize)>)
    ensures
        v@ == matches_in(*re, t@),
        in_order(v@, text::byte_len(t@) as int),
{
    re.find_iter(t).map(|m| (m.start(), m.end())).collect()
}

/// `regex::Regex::find_at`: the first match that starts at or after a byte
/// offset.
#[verifier::external_body]
pub(crate) fn find_from(re: &regex::Regex, t: &str, from: usize) -> (r: Option<(usize, usize)>)
    requires
        from <= text::byte_len(t@),
    ensures
        r == match_from(*re, t@, from),
{
    re.find_at(t, from).map(|m| (m.start(), m.end()))
}

} // verus!
