//! Characters and strings: the helpers every other module shares.
//!
//! A string is modelled by the sequence of its characters, a column counts
//! characters, and a byte offset counts the bytes of the UTF-8 encoding.
use vstd::prelude::*;
use vstd::utf8::*;

verus! {

/// `String::push`: appends one character.
pub assume_specification[ std::string::String::push ](s: &mut std::string::String, c: char)
    ensures
        final(s)@ == old(s)@.push(c),
;

/// `String::push_str`: appends a whole string slice.
pub assume_specification[ std::string::String::push_str ](s: &mut std::string::String, t: &str)
    ensures
        final(s)@ == old(s)@ + t@,
;

/// The smaller of two integers.
pub open spec fn min(a: int, b: int) -> int {
    if a <= b {
        a
    } else {
        b
    }
}

/// The larger of two integers.
pub open spec fn max(a: int, b: int) -> int {
    if a >= b {
        a
    } else {
        b
    }
}

/// `a + b`, at most `limit`.
pub fn advance(a: usize, b: usize, limit: usize) -> (n: usize)
    ensures
        n == min(a + b, limit as int),
{
    if a >= limit || b >= limit - a {
        limit
    } else {
        a + b
    }
}

/// Unicode's `White_Space` property.
pub open spec fn white_space(c: char) -> bool {
    let n = c as u32;
    ||| 0x09 <= n <= 0x0d
    ||| n == 0x20
    ||| n == 0x85
    ||| n == 0xa0
    ||| n == 0x1680
    ||| 0x2000 <= n <= 0x200a
    ||| n == 0x2028
    ||| n == 0x2029
    ||| n == 0x202f
    ||| n == 0x205f
    ||| n == 0x3000
}

/// True when `c` has Unicode's `White_Space` property.
pub fn is_white_space(c: char) -> (b: bool)
    ensures
        b == white_space(c),
{
    let n: u32 = c as u32;
    (0x09 <= n && n <= 0x0d) || n == 0x20 || n == 0x85 || n == 0xa0 || n == 0x1680 || (0x2000 <= n
        && n <= 0x200a) || n == 0x2028 || n == 0x2029 || n == 0x202f || n == 0x205f || n == 0x3000
}

/// Whether a character is a letter or a digit in the sense of Unicode.
pub uninterp spec fn alphanumeric(c: char) -> bool;

/// `char::is_alphanumeric`: whether the character has one of Unicode's
/// alphabetic or numeric properties; which do is not spelled out here.
#[verifier::external_body]
pub(crate) fn is_alphanumeric(c: char) -> (b: bool)
    ensures
        b == alphanumeric(c),
{
    c.is_alphanumeric()
}

/// The characters of `s`, in order.
pub fn chars_of(s: &str) -> (v: Vec<char>)
    ensures
        v@ == s@,
{
    let mut v: Vec<char> = Vec::new();
    for c in iter: s.chars()
        invariant
            iter.seq() == s@,
            v@ == s@.take(iter.index()),
    {
        assert(s@.take(iter.index() + 1) == s@.take(iter.index()).push(s@[iter.index()]));
        v.push(c);
    }
    assert(s@.take(s@.len() as int) == s@);
    v
}

/// The string of the characters `v[from..to]`.
pub fn string_of(v: &Vec<char>, from: usize, to: usize) -> (s: String)
    requires
        from <= to <= v.len(),
    ensures
        s@ == v@.subrange(from as int, to as int),
{
    let mut s = String::new();
    let mut i: usize = from;
    while i < to
        invariant
            from <= i <= to <= v.len(),
            s@ == v@.subrange(from as int, i as int),
        decreases to - i,
    {
        s.push(v[i]);
        i = i + 1;
        assert(v@.subrange(from as int, i as int) == v@.subrange(from as int, i - 1).push(v@[i - 1]));
    }
    s
}

/// A copy of a list of strings.
pub fn copy_strings(v: &Vec<String>) -> (r: Vec<String>)
    ensures
        r@ == v@,
{
    let mut r: Vec<String> = Vec::new();
    let mut i: usize = 0;
    while i < v.len()
        invariant
            i <= v.len(),
            r@ == v@.take(i as int),
        decreases v.len() - i,
    {
        r.push(v[i].clone());
        i = i + 1;
        assert(v@.take(i as int) =~= v@.take(i - 1).push(v@[i - 1]));
    }
    assert(v@.take(i as int) =~= v@);
    r
}

/// A copy of a list.
pub fn copy_vec<T: Copy>(v: &Vec<T>) -> (r: Vec<T>)
    ensures
        r@ == v@,
{
    let mut r: Vec<T> = Vec::new();
    let mut i: usize = 0;
    while i < v.len()
        invariant
            i <= v.len(),
            r@ == v@.take(i as int),
        decreases v.len() - i,
    {
        r.push(v[i]);
        i = i + 1;
        assert(v@.take(i as int) =~= v@.take(i - 1).push(v@[i - 1]));
    }
    assert(v@.take(i as int) =~= v@);
    r
}

/// True when two string slices hold the same characters.
pub fn same_text(a: &str, b: &str) -> (r: bool)
    ensures
        r == (a@ == b@),
{
    let x = chars_of(a);
    let y = chars_of(b);
    if x.len() != y.len() {
        return false;
    }
    let mut i: usize = 0;
    while i < x.len()
        invariant
            x@ == a@,
            y@ == b@,
            x.len() == y.len(),
            i <= x.len(),
            forall|k: int| 0 <= k < i ==> a@[k] == b@[k],
        decreases x.len() - i,
    {
        if x[i] != y[i] {
            assert(a@[i as int] != b@[i as int]);
            return false;
        }
        i = i + 1;
    }
    assert(a@ =~= b@);
    true
}

/// The decimal digit `d`.
pub open spec fn digit(d: nat) -> char {
    (48 + d) as char
}

/// A natural number in decimal.
pub open spec fn digits(n: nat) -> Seq<char>
    decreases n,
{
    if n < 10 {
        seq![digit(n)]
    } else {
        digits(n / 10).push(digit(n % 10))
    }
}

/// An integer in decimal, with a minus sign where it is negative.
pub open spec fn decimal(n: int) -> Seq<char> {
    if n < 0 {
        seq!['-'] + digits((-n) as nat)
    } else {
        digits(n as nat)
    }
}

/// Appends `n` in decimal.
pub fn push_number(s: &mut String, n: u64)
    ensures
        final(s)@ == old(s)@ + digits(n as nat),
    decreases n,
{
    if n >= 10 {
        push_number(s, n / 10);
    }
    let d: u8 = (n % 10) as u8;
    s.push((48 + d) as char);
    proof {
        assert(digits(n as nat) =~= if n < 10 {
            seq![digit(n as nat)]
        } else {
            digits(n as nat / 10).push(digit(n as nat % 10))
        });
    }
    assert(s@ =~= old(s)@ + digits(n as nat));
}

/// Appends `n` in decimal, with its sign.
pub fn push_integer(s: &mut String, n: i64)
    ensures
        final(s)@ == old(s)@ + decimal(n as int),
{
    if n < 0 {
        s.push('-');
        let m: u64 = if n == i64::MIN {
            0x8000_0000_0000_0000
        } else {
            (-n) as u64
        };
        push_number(s, m);
        assert(s@ =~= old(s)@ + decimal(n as int));
    } else {
        push_number(s, n as u64);
    }
}

/// A string in the form in which `Debug` shows it: in quotes, with escapes.
pub uninterp spec fn debug_text(s: Seq<char>) -> Seq<char>;

/// `Debug` for `str`: the string in quotes, with what is not printable written
/// as an escape. Which characters are escaped, and how, is not spelled out.
#[verifier::external_body]
pub(crate) fn quoted(s: &str) -> (q: String)
    ensures
        q@ == debug_text(s@),
{
    format!("{:?}", s)
}

/// How many bytes the UTF-8 encoding of `c` takes.
pub open spec fn char_bytes(c: char) -> nat {
    let n = c as u32;
    if n < 0x80 {
        1
    } else if n < 0x800 {
        2
    } else if n < 0x10000 {
        3
    } else {
        4
    }
}

/// How many bytes the UTF-8 encoding of `s` takes.
pub open spec fn byte_len(s: Seq<char>) -> nat
    decreases s.len(),
{
    if s.len() == 0 {
        0
    } else {
        byte_len(s.drop_last()) + char_bytes(s.last())
    }
}

/// The column whose character holds the byte at offset `byte`, or the length
/// of `s` when the offset is at or past the end. An offset in the middle of a
/// character belongs to that character.
pub open spec fn col_at_byte(s: Seq<char>, byte: int) -> int
    decreases s.len(),
{
    if s.len() == 0 || byte_len(s) <= byte {
        s.len() as int
    } else {
        col_at_byte(s.drop_last(), byte)
    }
}

/// Byte lengths add up under concatenation.
pub proof fn lemma_byte_len_concat(a: Seq<char>, b: Seq<char>)
    ensures
        byte_len(a + b) == byte_len(a) + byte_len(b),
    decreases b.len(),
{
    if b.len() == 0 {
        assert(a + b =~= a);
    } else {
        assert((a + b).drop_last() =~= a + b.drop_last());
        lemma_byte_len_concat(a, b.drop_last());
    }
}

/// A prefix takes no more bytes than a longer one, and every character takes
/// at least one byte.
pub proof fn lemma_byte_len_prefix(s: Seq<char>, i: int, j: int)
    requires
        0 <= i <= j <= s.len(),
    ensures
        byte_len(s.take(i)) + (j - i) <= byte_len(s.take(j)),
    decreases j - i,
{
    if i < j {
        lemma_byte_len_prefix(s, i, j - 1);
        lemma_byte_len_step(s, j - 1);
    }
}

/// One more character of a prefix adds that character's bytes.
pub proof fn lemma_byte_len_step(s: Seq<char>, i: int)
    requires
        0 <= i < s.len(),
    ensures
        byte_len(s.take(i + 1)) == byte_len(s.take(i)) + char_bytes(s[i]),
{
    assert(s.take(i + 1).drop_last() =~= s.take(i));
}

/// `byte_len` counts the bytes of the encoding.
pub proof fn lemma_byte_len_encode(s: Seq<char>)
    ensures
        encode_utf8(s).len() == byte_len(s),
    decreases s.len(),
{
    if s.len() > 0 {
        lemma_byte_len_encode(s.drop_first());
        let head = seq![s[0]];
        assert(s =~= head + s.drop_first());
        lemma_byte_len_concat(head, s.drop_first());
        assert(head.drop_last() =~= Seq::<char>::empty());
        char_is_scalar(s[0]);
        assert(byte_len(head) == char_bytes(s[0])) by {
            assert(byte_len(head.drop_last()) == 0);
        }
    }
}

/// The column of the byte offset that starts column `col` is `col`.
pub proof fn lemma_col_at_byte_inverse(s: Seq<char>, col: int)
    requires
        0 <= col <= s.len(),
    ensures
        col_at_byte(s, byte_len(s.take(col)) as int) == col,
    decreases s.len(),
{
    assert(s.take(s.len() as int) =~= s);
    if col < s.len() {
        lemma_byte_len_prefix(s, col, s.len() as int);
        assert(s.drop_last().take(col) =~= s.take(col));
        lemma_col_at_byte_inverse(s.drop_last(), col);
    }
}

/// What `col_at_byte` says of its result: the column starts at or before the
/// offset, and the next one starts after it.
pub proof fn lemma_col_at_byte_bounds(s: Seq<char>, byte: int)
    requires
        byte >= 0,
    ensures
        0 <= col_at_byte(s, byte) <= s.len(),
        byte_len(s.take(col_at_byte(s, byte))) <= byte,
        col_at_byte(s, byte) < s.len() ==> byte < byte_len(s.take(col_at_byte(s, byte) + 1)),
    decreases s.len(),
{
    assert(s.take(s.len() as int) =~= s);
    if s.len() > 0 && byte_len(s) > byte {
        lemma_col_at_byte_bounds(s.drop_last(), byte);
        let k = col_at_byte(s.drop_last(), byte);
        assert(s.drop_last().take(k) =~= s.take(k));
        if k < s.len() - 1 {
            assert(s.drop_last().take(k + 1) =~= s.take(k + 1));
        }
    }
}

/// A column that starts at or before the offset, with the next one starting
/// after it, is the column at that offset.
pub proof fn lemma_col_at_byte_unique(s: Seq<char>, byte: int, k: int)
    requires
        0 <= k <= s.len(),
        byte_len(s.take(k)) <= byte,
        k < s.len() ==> byte < byte_len(s.take(k + 1)),
    ensures
        col_at_byte(s, byte) == k,
{
    lemma_col_at_byte_bounds(s, byte);
    let c = col_at_byte(s, byte);
    if c < k {
        lemma_byte_len_prefix(s, c + 1, k);
    } else if k < c {
        lemma_byte_len_prefix(s, k + 1, c);
    }
}

/// The length of `s` in bytes.
pub fn byte_length(s: &str) -> (n: usize)
    ensures
        n == byte_len(s@),
{
    let n: usize = s.as_bytes().len();
    proof {
        lemma_byte_len_encode(s@);
    }
    n
}

/// The number of characters of `s`.
pub fn char_count(s: &str) -> (n: usize)
    ensures
        n == s@.len(),
{
    s.unicode_len()
}

/// The bytes that `c` takes in UTF-8.
pub fn char_byte_count(c: char) -> (n: usize)
    ensures
        n == char_bytes(c),
{
    let u: u32 = c as u32;
    if u < 0x80 {
        1
    } else if u < 0x800 {
        2
    } else if u < 0x10000 {
        3
    } else {
        4
    }
}

/// The column of the character that holds the byte at offset `byte` of `s`,
/// or the number of characters when the offset is at or past the end.
pub fn byte_to_col(s: &str, byte: usize) -> (col: usize)
    ensures
        col == col_at_byte(s@, byte as int),
{
    let v = chars_of(s);
    let total: usize = byte_length(s);
    let mut i: usize = 0;
    let mut at: usize = 0;
    while i < v.len()
        invariant
            v@ == s@,
            i <= v.len(),
            total == byte_len(s@),
            at == byte_len(s@.take(i as int)),
            at <= byte,
        decreases v.len() - i,
    {
        proof {
            lemma_byte_len_step(s@, i as int);
            lemma_byte_len_prefix(s@, i + 1, s@.len() as int);
            assert(s@.take(s@.len() as int) =~= s@);
        }
        let next: usize = at + char_byte_count(v[i]);
        if next > byte {
            proof {
                lemma_col_at_byte_unique(s@, byte as int, i as int);
            }
            return i;
        }
        at = next;
        i = i + 1;
    }
    proof {
        lemma_col_at_byte_unique(s@, byte as int, i as int);
    }
    i
}

} // verus!
