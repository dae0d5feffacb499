//! Named marks: places in the buffer that a letter remembers.
use std::collections::BTreeMap;

use vstd::prelude::*;
use vstd::std_specs::btree;
use vstd::std_specs::cmp::OrdSpec;
use vstd::std_specs::iter::IteratorSpec;

use crate::text;

verus! {

/// How an edit that adds or removes rows moves the places after it.
#[derive(Debug, Clone, Copy)]
pub struct RowShift {
    /// First row of the edit.
    pub start: usize,
    /// Whether rows were removed.
    pub removed: bool,
    /// How many rows were added or removed.
    pub by: usize,
}

impl RowShift {
    /// The row behind the removed ones.
    pub open spec fn drop_end(self) -> int {
        if self.removed {
            self.start + self.by
        } else {
            self.start as int
        }
    }

    /// Where a row ends up: a removed row nowhere, the rows behind it and
    /// behind the edit's first row further up or down, the others where they
    /// were.
    pub open spec fn row(self, row: usize) -> Option<usize> {
        if self.start <= row < self.drop_end() {
            None
        } else if row >= self.drop_end() && row > self.start {
            Some(
                if self.removed {
                    text::max(row - self.by, 0) as usize
                } else {
                    text::min(row + self.by, usize::MAX as int) as usize
                },
            )
        } else {
            Some(row)
        }
    }

    /// Where a row ends up.
    pub fn shift_row(&self, row: usize) -> (r: Option<usize>)
        ensures
            r == self.row(row),
    {
        let end: usize = if self.removed {
            text::advance(self.start, self.by, usize::MAX)
        } else {
            self.start
        };
        if self.start <= row && self.removed && row - self.start < self.by {
            None
        } else if row >= end && row > self.start {
            if self.removed {
                if row > self.by {
                    Some(row - self.by)
                } else {
                    Some(0)
                }
            } else {
                Some(text::advance(row, self.by, usize::MAX))
            }
        } else {
            Some(row)
        }
    }
}

/// The places of a list that an edit leaves, each where it ends up.
pub open spec fn shifted_places(s: Seq<(usize, usize)>, shift: RowShift) -> Seq<(usize, usize)>
    decreases s.len(),
{
    if s.len() == 0 {
        s
    } else {
        let head = shifted_places(s.drop_last(), shift);
        match shift.row(s.last().0) {
            Some(r) => head.push((r, s.last().1)),
            None => head,
        }
    }
}

/// Moves the places of a list as an edit asks.
pub fn shift_places(v: &mut Vec<(usize, usize)>, shift: RowShift)
    ensures
        final(v)@ == shifted_places(old(v)@, shift),
{
    let mut out: Vec<(usize, usize)> = Vec::new();
    let mut i: usize = 0;
    let ghost all = v@;
    while i < v.len()
        invariant
            v@ == all,
            i <= all.len(),
            out@ == shifted_places(all.take(i as int), shift),
        decreases v.len() - i,
    {
        let (row, col) = v[i];
        if let Some(r) = shift.shift_row(row) {
            out.push((r, col));
        }
        i = i + 1;
        assert(all.take(i as int).drop_last() =~= all.take(i - 1));
    }
    assert(all.take(i as int) =~= all);
    *v = out;
}

/// The marks that an edit leaves, each where it ends up.
pub open spec fn shifted_marks(m: Map<char, (usize, usize)>, shift: RowShift) -> Map<
    char,
    (usize, usize),
> {
    Map::new(
        |c: char| m.dom().contains(c) && shift.row(m[c].0) is Some,
        |c: char| (shift.row(m[c].0)->0, m[c].1),
    )
}

/// The named marks, kept in order of their names. A name is kept with its place,
/// under its number.
#[derive(Debug)]
pub struct Marks {
    entries: BTreeMap<u32, (char, (usize, usize))>,
}

/// The number of a name.
pub open spec fn number(c: char) -> u32 {
    c as u32
}

/// The marks that a map from the numbers of their names holds.
pub open spec fn named(m: Map<u32, (char, (usize, usize))>) -> Map<char, (usize, usize)> {
    Map::new(|c: char| m.dom().contains(number(c)), |c: char| m[number(c)].1)
}

/// Every name is kept under its number.
pub open spec fn well_named(m: Map<u32, (char, (usize, usize))>) -> bool {
    forall|k: u32| #[trigger] m.dom().contains(k) ==> number(m[k].0) == k
}

/// The order of numbers is one that a map can go by.
proof fn lemma_numbers_are_ordered()
    ensures
        btree::key_obeys_cmp_spec::<u32>(),
        vstd::laws_cmp::obeys_cmp::<u32>(),
{
    broadcast use btree::group_btree_axioms;
    broadcast use vstd::laws_cmp::group_laws_cmp;

}

/// Numbers in increasing order rise.
proof fn lemma_increasing(s: Seq<u32>)
    requires
        btree::increasing_seq(s),
    ensures
        forall|i: int, j: int| 0 <= i < j < s.len() ==> s[i] < s[j],
{
    broadcast use btree::group_btree_axioms;

    lemma_numbers_are_ordered();
    assert forall|i: int, j: int| 0 <= i < j < s.len() implies s[i] < s[j] by {
        assert(s[i].cmp_spec(&s[j]) is Less);
    }
}

/// No name loses anything in its number.
proof fn lemma_names_are_numbers()
    ensures
        forall|c: char| #[trigger] number(c) == c as int,
{
    assert forall|c: char| #[trigger] number(c) == c as int by {
        lemma_number(c);
    }
}

/// A name loses nothing in its number.
proof fn lemma_number(c: char)
    ensures
        number(c) == c as int,
{
    assert(c as int <= 0x10ffff);
}

/// The names rise, so none occurs twice.
pub open spec fn names_rise(s: Seq<(char, (usize, usize))>) -> bool {
    forall|i: int, j: int| 0 <= i < j < s.len() ==> (#[trigger] s[i]).0 < (#[trigger] s[j]).0
}

/// The map that a list of marks stands for.
pub open spec fn marks_map(s: Seq<(char, (usize, usize))>) -> Map<char, (usize, usize)>
    decreases s.len(),
{
    if s.len() == 0 {
        Map::<char, (usize, usize)>::empty()
    } else {
        marks_map(s.drop_last()).insert(s.last().0, s.last().1)
    }
}

/// What a list of marks with rising names says of a name.
proof fn lemma_marks_map(s: Seq<(char, (usize, usize))>)
    requires
        names_rise(s),
    ensures
        forall|i: int|
            0 <= i < s.len() ==> marks_map(s).dom().contains((#[trigger] s[i]).0) && marks_map(
                s,
            )[s[i].0] == s[i].1,
        forall|c: char| #[trigger]
            marks_map(s).dom().contains(c) ==> exists|i: int|
                0 <= i < s.len() && (#[trigger] s[i]).0 == c,
    decreases s.len(),
{
    if s.len() > 0 {
        let t = s.drop_last();
        assert(names_rise(t)) by {
            assert forall|i: int, j: int| 0 <= i < j < t.len() implies (#[trigger] t[i]).0 < (
            #[trigger] t[j]).0 by {
                assert(s[i].0 < s[j].0);
            }
        }
        lemma_marks_map(t);
        assert forall|i: int| 0 <= i < s.len() implies marks_map(s).dom().contains(
            (#[trigger] s[i]).0,
        ) && marks_map(s)[s[i].0] == s[i].1 by {
            if i < s.len() - 1 {
                assert(t[i] == s[i]);
                assert(s[i].0 < s[s.len() - 1].0);
            }
        }
        assert forall|c: char| #[trigger] marks_map(s).dom().contains(c) implies exists|i: int|
            0 <= i < s.len() && (#[trigger] s[i]).0 == c by {
            if c == s.last().0 {
                assert(s[s.len() - 1].0 == c);
            } else {
                assert(marks_map(t).dom().contains(c));
                let i = choose|i: int| 0 <= i < t.len() && (#[trigger] t[i]).0 == c;
                assert(s[i].0 == c);
            }
        }
    }
}

/// Two lists of marks with rising names that say the same of every name stand
/// for the same map.
proof fn lemma_same_map(s: Seq<(char, (usize, usize))>, m: Map<char, (usize, usize)>)
    requires
        names_rise(s),
        forall|i: int|
            0 <= i < s.len() ==> m.dom().contains((#[trigger] s[i]).0) && m[s[i].0] == s[i].1,
        forall|c: char| #[trigger]
            m.dom().contains(c) ==> exists|i: int| 0 <= i < s.len() && (#[trigger] s[i]).0 == c,
    ensures
        marks_map(s) == m,
{
    lemma_marks_map(s);
    let a = marks_map(s);
    assert forall|c: char| a.dom().contains(c) == m.dom().contains(c) by {
        if a.dom().contains(c) {
            let i = choose|i: int| 0 <= i < s.len() && (#[trigger] s[i]).0 == c;
            assert(m.dom().contains(s[i].0));
        }
        if m.dom().contains(c) {
            let i = choose|i: int| 0 <= i < s.len() && (#[trigger] s[i]).0 == c;
            assert(a.dom().contains(s[i].0));
        }
    }
    assert forall|c: char| a.dom().contains(c) implies a[c] == m[c] by {
        let i = choose|i: int| 0 <= i < s.len() && (#[trigger] s[i]).0 == c;
        assert(a[s[i].0] == s[i].1 && m[s[i].0] == s[i].1);
    }
    assert(a =~= m);
}

/// The marks of a map in the order in which it is walked.
spec fn walk(m: BTreeMap<u32, (char, (usize, usize))>) -> Seq<(char, (usize, usize))> {
    btree::into_iter(btree::spec_btree_map_iter(&m)).map_values(
        |e: (u32, (char, (usize, usize)))| e.1,
    )
}

impl Marks {
    /// The marks in order.
    pub closed spec fn list(&self) -> Seq<(char, (usize, usize))> {
        walk(self.entries)
    }

    #[verifier::type_invariant]
    spec fn inv(&self) -> bool {
        well_named(self.entries@)
    }

    /// No marks.
    pub fn new() -> (m: Marks)
        ensures
            m@ == Map::<char, (usize, usize)>::empty(),
    {
        let m = Marks { entries: BTreeMap::new() };
        assert(m@ =~= Map::<char, (usize, usize)>::empty());
        m
    }

    /// The place that `c` remembers.
    pub fn get(&self, c: char) -> (r: Option<(usize, usize)>)
        ensures
            r == if self@.dom().contains(c) {
                Some(self@[c])
            } else {
                None
            },
    {
        broadcast use btree::group_btree_axioms;

        proof {
            lemma_numbers_are_ordered();
        }
        match self.entries.get(&(c as u32)) {
            Some(e) => Some(e.1),
            None => None,
        }
    }

    /// The marks in order of their names.
    pub fn to_vec(&self) -> (v: Vec<(char, (usize, usize))>)
        ensures
            v@ == self.list(),
            names_rise(v@),
            marks_map(v@) == self@,
    {
        broadcast use btree::group_btree_axioms;

        proof {
            use_type_invariant(self);
            lemma_numbers_are_ordered();
            lemma_names_are_numbers();
        }
        let mut v: Vec<(char, (usize, usize))> = Vec::new();
        let it = self.entries.iter();
        let ghost all = it.remaining();
        for e in walked: it
            invariant
                walked.seq() == all,
                v@.len() == walked.index(),
                forall|i: int| 0 <= i < v@.len() ==> #[trigger] v@[i] == *all[i].1,
        {
            v.push(*e.1);
        }
        proof {
            let keys = all.map_values(|kv: (&u32, &(char, (usize, usize)))| *kv.0);
            lemma_increasing(keys);
            assert(v@ =~= self.list());
            assert forall|i: int, j: int| 0 <= i < j < v@.len() implies (#[trigger] v@[i]).0 < (
            #[trigger] v@[j]).0 by {
                assert(keys[i] < keys[j]);
                assert(self.entries@.contains_key(*all[i].0));
                assert(self.entries@.contains_key(*all[j].0));
            }
            assert forall|i: int| 0 <= i < v@.len() implies self@.dom().contains(
                (#[trigger] v@[i]).0,
            ) && self@[v@[i].0] == v@[i].1 by {
                assert(self.entries@.contains_key(*all[i].0));
            }
            assert forall|c: char| #[trigger] self@.dom().contains(c) implies exists|i: int|
                0 <= i < v@.len() && (#[trigger] v@[i]).0 == c by {
                let k = number(c);
                assert(self.entries@.contains_key(k));
                let i = choose|i: int| 0 <= i < all.len() && all[i] == (&k, &self.entries@[k]);
                assert(v@[i].0 == c);
            }
            lemma_same_map(v@, self@);
        }
        v
    }

    /// Makes `c` remember `pos`.
    pub fn set(&mut self, c: char, pos: (usize, usize))
        ensures
            final(self)@ == old(self)@.insert(c, pos),
    {
        proof {
            use_type_invariant(&*self);
            lemma_numbers_are_ordered();
            lemma_names_are_numbers();
        }
        let mut m: BTreeMap<u32, (char, (usize, usize))> = BTreeMap::new();
        std::mem::swap(&mut m, &mut self.entries);
        m.insert(c as u32, (c, pos));
        self.entries = m;
        assert(self@ =~= old(self)@.insert(c, pos));
    }

    /// Moves the marks as an edit asks.
    pub fn shift(&mut self, shift: RowShift)
        ensures
            final(self)@ == shifted_marks(old(self)@, shift),
    {
        let v = self.to_vec();
        let mut m: BTreeMap<u32, (char, (usize, usize))> = BTreeMap::new();
        let mut i: usize = 0;
        proof {
            assert(v@.take(0) =~= Seq::<(char, (usize, usize))>::empty());
            assert(named(m@) =~= shifted_marks(marks_map(v@.take(0)), shift));
        }
        while i < v.len()
            invariant
                i <= v@.len(),
                names_rise(v@),
                well_named(m@),
                named(m@) == shifted_marks(marks_map(v@.take(i as int)), shift),
            decreases v.len() - i,
        {
            let (c, (row, col)) = v[i];
            let ghost seen = v@.take(i as int);
            let ghost before = named(m@);
            proof {
                lemma_numbers_are_ordered();
                lemma_names_are_numbers();
                assert(v@.take(i + 1).drop_last() =~= seen);
                lemma_marks_map(seen);
                assert(!marks_map(seen).dom().contains(c));
            }
            if let Some(r) = shift.shift_row(row) {
                let ghost held = m@;
                m.insert(c as u32, (c, (r, col)));
                assert(m@ == held.insert(number(c), (c, (r, col))));
                assert(named(m@) =~= before.insert(c, (r, col)));
            }
            i = i + 1;
            assert(named(m@) =~= shifted_marks(marks_map(v@.take(i as int)), shift));
        }
        assert(v@.take(v@.len() as int) =~= v@);
        self.entries = m;
    }

    /// Makes `c` remember nothing.
    pub fn remove(&mut self, c: char)
        ensures
            final(self)@ == old(self)@.remove(c),
    {
        broadcast use btree::group_btree_axioms;

        proof {
            use_type_invariant(&*self);
            lemma_numbers_are_ordered();
            lemma_names_are_numbers();
        }
        let mut m: BTreeMap<u32, (char, (usize, usize))> = BTreeMap::new();
        std::mem::swap(&mut m, &mut self.entries);
        m.remove(&(c as u32));
        self.entries = m;
        assert(self@ =~= old(self)@.remove(c));
    }
}

impl View for Marks {
    type V = Map<char, (usize, usize)>;

    closed spec fn view(&self) -> Map<char, (usize, usize)> {
        named(self.entries@)
    }
}

} // verus!
