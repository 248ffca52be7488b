//! Character-level text handling shared by the parsers of the library:
//! trimming, stripping, comparing and assembling strings, and decimal
//! integers written and read back.
use vstd::prelude::*;

verus! {

/// Unicode `White_Space`: the characters that `char::is_whitespace` accepts
/// and that `str::trim` removes.
pub open spec fn is_ws(c: char) -> bool {
    let u = c as u32;
    ||| 0x9 <= u <= 0xd
    ||| u == 0x20
    ||| u == 0x85
    ||| u == 0xa0
    ||| u == 0x1680
    ||| 0x2000 <= u <= 0x200a
    ||| u == 0x2028
    ||| u == 0x2029
    ||| u == 0x202f
    ||| u == 0x205f
    ||| u == 0x3000
}

/// A class of characters that is stripped from the ends of a text.
#[derive(Clone, Copy)]
pub enum CharClass {
    /// Unicode white space.
    Whitespace,
    /// One given character.
    Exactly(char),
}

impl CharClass {
    pub open spec fn holds(self, c: char) -> bool {
        match self {
            CharClass::Whitespace => is_ws(c),
            CharClass::Exactly(x) => c == x,
        }
    }

    /// Whether `c` belongs to the class.
    pub fn contains(&self, c: char) -> (res: bool)
        ensures
            res == self.holds(c),
    {
        match self {
            CharClass::Whitespace => {
                let u = c as u32;
                (0x9 <= u && u <= 0xd) || u == 0x20 || u == 0x85 || u == 0xa0 || u == 0x1680 || (
                0x2000 <= u && u <= 0x200a) || u == 0x2028 || u == 0x2029 || u == 0x202f || u
                    == 0x205f || u == 0x3000
            },
            CharClass::Exactly(x) => c == *x,
        }
    }
}

/// `s` without its leading characters of class `k`.
pub open spec fn strip_start(s: Seq<char>, k: CharClass) -> Seq<char>
    decreases s.len(),
{
    if s.len() > 0 && k.holds(s[0]) {
        strip_start(s.drop_first(), k)
    } else {
        s
    }
}

/// `s` without its trailing characters of class `k`.
pub open spec fn strip_end(s: Seq<char>, k: CharClass) -> Seq<char>
    decreases s.len(),
{
    if s.len() > 0 && k.holds(s.last()) {
        strip_end(s.drop_last(), k)
    } else {
        s
    }
}

/// `s` without the characters of class `k` at either end.
pub open spec fn strip(s: Seq<char>, k: CharClass) -> Seq<char> {
    strip_end(strip_start(s, k), k)
}

/// `str::trim`.
pub open spec fn trim(s: Seq<char>) -> Seq<char> {
    strip(s, CharClass::Whitespace)
}

/// Stripping the start of a range that begins with a member of the class
/// is stripping the range one shorter.
proof fn lemma_strip_start_step(s: Seq<char>, lo: int, hi: int, k: CharClass)
    requires
        0 <= lo < hi <= s.len(),
        k.holds(s[lo]),
    ensures
        strip_start(s.subrange(lo, hi), k) == strip_start(s.subrange(lo + 1, hi), k),
{
    assert(s.subrange(lo, hi).drop_first() =~= s.subrange(lo + 1, hi));
}

proof fn lemma_strip_end_step(s: Seq<char>, lo: int, hi: int, k: CharClass)
    requires
        0 <= lo < hi <= s.len(),
        k.holds(s[hi - 1]),
    ensures
        strip_end(s.subrange(lo, hi), k) == strip_end(s.subrange(lo, hi - 1), k),
{
    assert(s.subrange(lo, hi).drop_last() =~= s.subrange(lo, hi - 1));
}

/// The bounds, inside `lo..hi`, of the part of `v` that is left when the
/// characters of class `k` are stripped from its start.
pub fn strip_start_bound(v: &Vec<char>, lo: usize, hi: usize, k: CharClass) -> (res: usize)
    requires
        lo <= hi <= v@.len(),
    ensures
        lo <= res <= hi,
        v@.subrange(res as int, hi as int) == strip_start(v@.subrange(lo as int, hi as int), k),
{
    let mut i = lo;
    while i < hi && k.contains(v[i])
        invariant
            lo <= i <= hi <= v@.len(),
            strip_start(v@.subrange(i as int, hi as int), k) == strip_start(
                v@.subrange(lo as int, hi as int),
                k,
            ),
        decreases hi - i,
    {
        proof {
            lemma_strip_start_step(v@, i as int, hi as int, k);
        }
        i = i + 1;
    }
    i
}

/// The end bound, inside `lo..hi`, of what is left when the characters of
/// class `k` are stripped from the end of `v[lo..hi]`.
pub fn strip_end_bound(v: &Vec<char>, lo: usize, hi: usize, k: CharClass) -> (res: usize)
    requires
        lo <= hi <= v@.len(),
    ensures
        lo <= res <= hi,
        v@.subrange(lo as int, res as int) == strip_end(v@.subrange(lo as int, hi as int), k),
{
    let mut j = hi;
    while j > lo && k.contains(v[j - 1])
        invariant
            lo <= j <= hi <= v@.len(),
            strip_end(v@.subrange(lo as int, j as int), k) == strip_end(
                v@.subrange(lo as int, hi as int),
                k,
            ),
        decreases j - lo,
    {
        proof {
            lemma_strip_end_step(v@, lo as int, j as int, k);
        }
        j = j - 1;
    }
    j
}

/// The bounds of `strip(v[lo..hi], k)` inside `v`.
pub fn strip_bounds(v: &Vec<char>, lo: usize, hi: usize, k: CharClass) -> (res: (usize, usize))
    requires
        lo <= hi <= v@.len(),
    ensures
        lo <= res.0 <= res.1 <= hi,
        v@.subrange(res.0 as int, res.1 as int) == strip(v@.subrange(lo as int, hi as int), k),
{
    let a = strip_start_bound(v, lo, hi, k);
    let b = strip_end_bound(v, a, hi, k);
    (a, b)
}

/// The characters of `s`, in order.
pub fn chars_of(s: &str) -> (res: Vec<char>)
    ensures
        res@ == s@,
{
    let mut res: Vec<char> = Vec::new();
    for c in it: s.chars()
        invariant
            res@ == it.seq().take(it.index() as int),
    {
        res.push(c);
    }
    res
}

/// `String::push`: std documents that it appends the character to the end
/// of the string.
#[verifier::external_body]
pub(crate) fn push_char(s: &mut String, c: char)
    ensures
        final(s)@ == old(s)@.push(c),
{
    s.push(c);
}

/// Appends the characters of `v` to `s`.
pub fn append_chars(s: &mut String, v: &Vec<char>)
    ensures
        final(s)@ == old(s)@ + v@,
{
    let mut i: usize = 0;
    while i < v.len()
        invariant
            0 <= i <= v@.len(),
            s@ == old(s)@ + v@.take(i as int),
        decreases v@.len() - i,
    {
        push_char(s, v[i]);
        assert(v@.take(i + 1) =~= v@.take(i as int).push(v@[i as int]));
        assert(old(s)@ + v@.take(i + 1) =~= (old(s)@ + v@.take(i as int)).push(v@[i as int]));
        i = i + 1;
    }
    assert(v@.take(v@.len() as int) =~= v@);
}

/// Whether two strings are equal.
pub fn str_eq(a: &str, b: &str) -> (res: bool)
    ensures
        res == (a@ == b@),
{
    chars_eq(&chars_of(a), &chars_of(b))
}

/// A `String` holding `v[lo..hi]`.
pub fn string_of(v: &Vec<char>, lo: usize, hi: usize) -> (res: String)
    requires
        lo <= hi <= v@.len(),
    ensures
        res@ == v@.subrange(lo as int, hi as int),
{
    let mut res = String::new();
    let mut i = lo;
    while i < hi
        invariant
            lo <= i <= hi <= v@.len(),
            res@ == v@.subrange(lo as int, i as int),
        decreases hi - i,
    {
        push_char(&mut res, v[i]);
        assert(v@.subrange(lo as int, i + 1) =~= v@.subrange(lo as int, i as int).push(v@[i as int]));
        i = i + 1;
    }
    res
}

/// A `String` holding all of `v`.
pub fn string_from_chars(v: &Vec<char>) -> (res: String)
    ensures
        res@ == v@,
{
    let res = string_of(v, 0, v.len());
    assert(v@.subrange(0, v@.len() as int) =~= v@);
    res
}

/// A copy of `v[lo..hi]`.
pub fn chars_sub(v: &Vec<char>, lo: usize, hi: usize) -> (res: Vec<char>)
    requires
        lo <= hi <= v@.len(),
    ensures
        res@ == v@.subrange(lo as int, hi as int),
{
    let mut res: Vec<char> = Vec::new();
    let mut i = lo;
    while i < hi
        invariant
            lo <= i <= hi <= v@.len(),
            res@ == v@.subrange(lo as int, i as int),
        decreases hi - i,
    {
        res.push(v[i]);
        assert(v@.subrange(lo as int, i + 1) =~= v@.subrange(lo as int, i as int).push(v@[i as int]));
        i = i + 1;
    }
    res
}

/// A copy of `v`.
pub fn chars_copy(v: &Vec<char>) -> (res: Vec<char>)
    ensures
        res@ == v@,
{
    let res = chars_sub(v, 0, v.len());
    assert(v@.subrange(0, v@.len() as int) =~= v@);
    res
}

/// Whether `v[lo..hi]` equals `w`.
pub fn range_eq(v: &Vec<char>, lo: usize, hi: usize, w: &Vec<char>) -> (res: bool)
    requires
        lo <= hi <= v@.len(),
    ensures
        res == (v@.subrange(lo as int, hi as int) == w@),
{
    if hi - lo != w.len() {
        return false;
    }
    let mut i: usize = 0;
    while i < w.len()
        invariant
            lo <= hi <= v@.len(),
            hi - lo == w@.len(),
            0 <= i <= w@.len(),
            forall|j: int| 0 <= j < i ==> v@[lo + j] == w@[j],
        decreases w@.len() - i,
    {
        if v[lo + i] != w[i] {
            assert(v@.subrange(lo as int, hi as int)[i as int] != w@[i as int]);
            return false;
        }
        i = i + 1;
    }
    assert(v@.subrange(lo as int, hi as int) =~= w@);
    true
}

/// Whether two character vectors are equal.
pub fn chars_eq(a: &Vec<char>, b: &Vec<char>) -> (res: bool)
    ensures
        res == (a@ == b@),
{
    let r = range_eq(a, 0, a.len(), b);
    assert(a@.subrange(0, a@.len() as int) =~= a@);
    r
}

} // verus!
