//! Decimal integers: written the way `Display` writes them, and read back
//! the way `<i64 as FromStr>::from_str` reads them.
use vstd::prelude::*;

verus! {

/// The ASCII digit for `d < 10`.
pub open spec fn digit_char(d: nat) -> char {
    (48 + d) as char
}

/// The decimal digits of `n`, most significant first, without leading zeros.
pub open spec fn nat_digits(n: nat) -> Seq<char>
    decreases n,
{
    if n < 10 {
        seq![digit_char(n)]
    } else {
        nat_digits(n / 10).push(digit_char(n % 10))
    }
}

/// How `Display` writes an integer: a minus sign for negative numbers,
/// then the digits of its magnitude.
pub open spec fn int_decimal(n: int) -> Seq<char> {
    if n < 0 {
        seq!['-'] + nat_digits((-n) as nat)
    } else {
        nat_digits(n as nat)
    }
}

pub open spec fn is_digit(c: char) -> bool {
    '0' <= c <= '9'
}

pub open spec fn all_digits(s: Seq<char>) -> bool {
    forall|i: int| 0 <= i < s.len() ==> is_digit(#[trigger] s[i])
}

/// The number that a string of decimal digits denotes.
pub open spec fn digits_value(s: Seq<char>) -> int
    decreases s.len(),
{
    if s.len() == 0 {
        0
    } else {
        digits_value(s.drop_last()) * 10 + ((s.last() as int) - 48)
    }
}

/// The sign of a number being read, and the digits that follow it.
pub open spec fn split_sign(s: Seq<char>) -> (bool, Seq<char>) {
    if s.len() > 0 && s[0] == '-' {
        (true, s.drop_first())
    } else if s.len() > 0 && s[0] == '+' {
        (false, s.drop_first())
    } else {
        (false, s)
    }
}

/// `<i64 as FromStr>::from_str`: an optional sign, then at least one ASCII
/// digit and nothing else; `None` where the text is not of that form or the
/// number does not fit in an `i64`.
pub open spec fn parse_i64(s: Seq<char>) -> Option<i64> {
    let neg = split_sign(s).0;
    let ds = split_sign(s).1;
    if ds.len() == 0 || !all_digits(ds) {
        None
    } else if neg {
        if digits_value(ds) <= 0x8000_0000_0000_0000 {
            Some((-digits_value(ds)) as i64)
        } else {
            None
        }
    } else {
        if digits_value(ds) <= 0x7fff_ffff_ffff_ffff {
            Some(digits_value(ds) as i64)
        } else {
            None
        }
    }
}

proof fn lemma_digits_value_nonneg(s: Seq<char>)
    requires
        all_digits(s),
    ensures
        digits_value(s) >= 0,
    decreases s.len(),
{
    if s.len() > 0 {
        assert(is_digit(s[s.len() - 1]));
        lemma_digits_value_nonneg(s.drop_last());
    }
}

/// A longer prefix of a digit string never denotes a smaller number.
proof fn lemma_digits_value_prefix(s: Seq<char>, i: int)
    requires
        all_digits(s),
        0 <= i <= s.len(),
    ensures
        digits_value(s.take(i)) <= digits_value(s),
    decreases s.len(),
{
    if i < s.len() {
        assert(s.drop_last().take(i) =~= s.take(i));
        lemma_digits_value_prefix(s.drop_last(), i);
        lemma_digits_value_nonneg(s.drop_last());
        assert(is_digit(s[s.len() - 1]));
    } else {
        assert(s.take(i) =~= s);
    }
}

/// The digits of `n` are digits, and they denote `n`.
pub proof fn lemma_nat_digits(n: nat)
    ensures
        all_digits(nat_digits(n)),
        nat_digits(n).len() >= 1,
        digits_value(nat_digits(n)) == n,
    decreases n,
{
    if n < 10 {
        assert(digits_value(seq![digit_char(n)]) == digits_value(seq![digit_char(n)].drop_last()) * 10
            + n);
        assert(seq![digit_char(n)].drop_last() =~= Seq::<char>::empty());
    } else {
        lemma_nat_digits(n / 10);
        let s = nat_digits(n);
        assert(s.drop_last() =~= nat_digits(n / 10));
        assert forall|i: int| 0 <= i < s.len() implies is_digit(#[trigger] s[i]) by {
            if i < s.len() - 1 {
                assert(s[i] == nat_digits(n / 10)[i]);
            }
        }
    }
}

/// The decimal digits of `n`.
pub fn u64_digits(n: u64) -> (res: Vec<char>)
    ensures
        res@ == nat_digits(n as nat),
{
    let mut m = n;
    let mut acc: Vec<char> = Vec::new();
    while m >= 10
        invariant
            nat_digits(n as nat) == nat_digits(m as nat) + acc@,
        decreases m,
    {
        let d = (m % 10) as u8;
        let c = (48u8 + d) as char;
        assert(c == digit_char((m % 10) as nat));
        acc.insert(0, c);
        proof {
            assert(nat_digits(m as nat) == nat_digits((m / 10) as nat).push(c));
            assert(nat_digits((m / 10) as nat) + acc@ =~= nat_digits((m / 10) as nat).push(c)
                + acc@.drop_first());
        }
        m = m / 10;
    }
    let c = (48u8 + (m as u8)) as char;
    acc.insert(0, c);
    assert(nat_digits(m as nat) =~= seq![c]);
    assert(acc@ =~= seq![c] + acc@.drop_first());
    acc
}

/// How `Display` writes `n`.
pub fn i64_decimal(n: i64) -> (res: Vec<char>)
    ensures
        res@ == int_decimal(n as int),
{
    if n < 0 {
        let mag: u64 = ((-(n + 1)) as u64) + 1;
        let ds = u64_digits(mag);
        let mut res: Vec<char> = Vec::new();
        res.push('-');
        let mut i: usize = 0;
        while i < ds.len()
            invariant
                0 <= i <= ds@.len(),
                res@ == seq!['-'] + ds@.take(i as int),
            decreases ds@.len() - i,
        {
            res.push(ds[i]);
            assert(ds@.take(i + 1) =~= ds@.take(i as int).push(ds@[i as int]));
            assert(seq!['-'] + ds@.take(i + 1) =~= (seq!['-'] + ds@.take(i as int)).push(ds@[i as int]));
            i = i + 1;
        }
        assert(ds@.take(ds@.len() as int) =~= ds@);
        res
    } else {
        u64_digits(n as u64)
    }
}

/// `<i64 as FromStr>::from_str` on `v[lo..hi]`.
pub fn parse_i64_range(v: &Vec<char>, lo: usize, hi: usize) -> (res: Option<i64>)
    requires
        lo <= hi <= v@.len(),
    ensures
        res == parse_i64(v@.subrange(lo as int, hi as int)),
{
    let ghost s = v@.subrange(lo as int, hi as int);
    let mut start = lo;
    let mut neg = false;
    if lo < hi && v[lo] == '-' {
        neg = true;
        start = lo + 1;
    } else if lo < hi && v[lo] == '+' {
        start = lo + 1;
    }
    let ghost ds = v@.subrange(start as int, hi as int);
    assert(split_sign(s).1 =~= ds);
    assert(split_sign(s).0 == neg);
    if start == hi {
        return None;
    }
    let limit: u64 = if neg { 0x8000_0000_0000_0000 } else { 0x7fff_ffff_ffff_ffff };
    let mut acc: u64 = 0;
    let mut i = start;
    let mut overflow = false;
    while i < hi
        invariant
            lo <= start <= i <= hi <= v@.len(),
            start < hi,
            ds == v@.subrange(start as int, hi as int),
            split_sign(s).1 == ds,
            split_sign(s).0 == neg,
            s == v@.subrange(lo as int, hi as int),
            limit == (if neg { 0x8000_0000_0000_0000u64 } else { 0x7fff_ffff_ffff_ffffu64 }),
            acc <= limit,
            !overflow ==> acc == digits_value(ds.take(i - start)),
            overflow ==> digits_value(ds.take(i - start)) > limit,
            all_digits(ds.take(i - start)),
        decreases hi - i,
    {
        let c = v[i];
        if !('0' <= c && c <= '9') {
            assert(ds[i - start] == c);
            assert(!is_digit(ds[i - start]));
            return None;
        }
        let d = (c as u32 - 48) as u64;
        let ghost t = ds.take(i - start + 1);
        assert(t.drop_last() =~= ds.take(i - start));
        assert(t.last() == c);
        if !overflow {
            if acc > (limit - d) / 10 {
                overflow = true;
            } else {
                assert(acc * 10 <= limit - d) by (nonlinear_arith)
                    requires
                        acc <= (limit - d) / 10,
                        d <= limit,
                ;
                acc = acc * 10 + d;
            }
        } else {
            proof {
                lemma_digits_value_nonneg(ds.take(i - start));
            }
        }
        i = i + 1;
    }
    assert(ds.take(hi - start) =~= ds);
    if overflow {
        None
    } else if neg {
        if acc == 0x8000_0000_0000_0000 {
            Some(i64::MIN)
        } else {
            Some(-(acc as i64))
        }
    } else {
        Some(acc as i64)
    }
}

/// `<i64 as FromStr>::from_str`.
pub fn parse_i64_str(s: &str) -> (res: Option<i64>)
    ensures
        res == parse_i64(s@),
{
    let v = crate::text::chars_of(s);
    assert(v@.subrange(0, v@.len() as int) =~= v@);
    parse_i64_range(&v, 0, v.len())
}

/// Reading back what `Display` writes gives the number again.
pub proof fn lemma_parse_decimal_roundtrip(n: i64)
    ensures
        parse_i64(int_decimal(n as int)) == Some(n),
{
    if n < 0 {
        let m: nat = (-(n as int)) as nat;
        lemma_nat_digits(m);
        let s = int_decimal(n as int);
        assert(s[0] == '-');
        assert(s.drop_first() =~= nat_digits(m));
    } else {
        lemma_nat_digits(n as nat);
        let s = int_decimal(n as int);
        assert(is_digit(s[0]));
    }
}

} // verus!
