//! Hex colour codes (`#rrggbb`, `#rgb`): their channels, whether they can be
//! read at all, and whether the colour is light.
use vstd::prelude::*;
use crate::text::{CharClass, strip_start, trim, strip_bounds, strip_start_bound, chars_of, append_chars};
use crate::decimal::{int_decimal, i64_decimal};

verus! {

pub open spec fn is_ascii_char(c: char) -> bool {
    (c as u32) < 0x80
}

pub open spec fn all_ascii(s: Seq<char>) -> bool {
    forall|i: int| 0 <= i < s.len() ==> is_ascii_char(#[trigger] s[i])
}

/// The number of bytes of the UTF-8 encoding of `c`.
pub open spec fn utf8_width(c: char) -> nat {
    let u = c as u32;
    if u < 0x80 {
        1
    } else if u < 0x800 {
        2
    } else if u < 0x10000 {
        3
    } else {
        4
    }
}

/// The number of bytes of the UTF-8 encoding of `s` (what `str::len` counts).
pub open spec fn utf8_len(s: Seq<char>) -> nat
    decreases s.len(),
{
    if s.len() == 0 {
        0
    } else {
        utf8_len(s.drop_last()) + utf8_width(s.last())
    }
}

/// Whether byte offset `b` of the UTF-8 encoding of `s` falls between two
/// characters (`str::is_char_boundary`).
pub open spec fn is_byte_boundary(s: Seq<char>, b: int) -> bool {
    exists|k: int| 0 <= k <= s.len() && #[trigger] utf8_len(s.take(k)) == b
}

/// The value of an ASCII hex digit.
pub open spec fn hex_digit(c: char) -> Option<nat> {
    if '0' <= c <= '9' {
        Some((c as nat - 48) as nat)
    } else if 'a' <= c <= 'f' {
        Some((c as nat - 87) as nat)
    } else if 'A' <= c <= 'F' {
        Some((c as nat - 55) as nat)
    } else {
        None
    }
}

/// `u8::from_str_radix(chunk, 16)` for a chunk of one or two ASCII
/// characters: a leading `+` is allowed before a digit, a leading `-` is not.
pub open spec fn hex_u8(chunk: Seq<char>) -> Option<nat> {
    if chunk.len() == 1 {
        hex_digit(chunk[0])
    } else if chunk.len() == 2 {
        if chunk[0] == '+' {
            hex_digit(chunk[1])
        } else {
            match (hex_digit(chunk[0]), hex_digit(chunk[1])) {
                (Some(h), Some(l)) => Some(h * 16 + l),
                _ => None,
            }
        }
    } else {
        None
    }
}

/// The channels, on a 0..=255 scale, of a colour code from which the `#`
/// has been removed: six characters give three bytes, three characters give
/// three nibbles `x`, each read as `17 * x`. Anything else, and any code
/// with a character outside ASCII, has no channels.
pub open spec fn hex_rgb(clean: Seq<char>) -> Option<(u8, u8, u8)> {
    if !all_ascii(clean) {
        None
    } else if clean.len() == 6 {
        match (
            hex_u8(clean.subrange(0, 2)),
            hex_u8(clean.subrange(2, 4)),
            hex_u8(clean.subrange(4, 6)),
        ) {
            (Some(r), Some(g), Some(b)) => Some((r as u8, g as u8, b as u8)),
            _ => None,
        }
    } else if clean.len() == 3 {
        match (
            hex_u8(clean.subrange(0, 1)),
            hex_u8(clean.subrange(1, 2)),
            hex_u8(clean.subrange(2, 3)),
        ) {
            (Some(r), Some(g), Some(b)) => Some(((17 * r) as u8, (17 * g) as u8, (17 * b) as u8)),
            _ => None,
        }
    } else {
        None
    }
}

/// A colour code with white space trimmed and leading `#`s removed.
pub open spec fn hex_clean(hex: Seq<char>) -> Seq<char> {
    strip_start(trim(hex), CharClass::Exactly('#'))
}

/// Whether reading the channels of `clean` slices its UTF-8 encoding inside
/// a character, which makes the slicing panic: a six-byte code is sliced at
/// bytes 2 and 4, a three-byte code at bytes 1 and 2.
pub open spec fn hex_slicing_fails(clean: Seq<char>) -> bool {
    &&& !all_ascii(clean)
    &&& {
        ||| utf8_len(clean) == 6 && !(is_byte_boundary(clean, 2) && is_byte_boundary(clean, 4))
        ||| utf8_len(clean) == 3 && !(is_byte_boundary(clean, 1) && is_byte_boundary(clean, 2))
    }
}

/// Whether a colour code can be read without a panic.
pub open spec fn hex_readable(hex: Seq<char>) -> bool {
    !hex_slicing_fails(hex_clean(hex))
}

/// Whether telling the lightness of `clean` slices its UTF-8 encoding inside
/// a character. The channels are read one at a time and reading stops at
/// the first that is not a number, so only the slices up to there count: a
/// six-byte code is sliced at byte 2, and at byte 4 once its first pair has
/// been read; a three-byte code at byte 1, and at byte 2 once its first digit
/// has been read.
pub open spec fn lightness_slicing_fails(clean: Seq<char>) -> bool {
    &&& !all_ascii(clean)
    &&& {
        ||| utf8_len(clean) == 6 && {
            ||| !is_byte_boundary(clean, 2)
            ||| clean.len() >= 2 && hex_u8(clean.subrange(0, 2)) is Some && !is_byte_boundary(clean, 4)
        }
        ||| utf8_len(clean) == 3 && {
            ||| !is_byte_boundary(clean, 1)
            ||| clean.len() >= 1 && hex_digit(clean[0]) is Some && !is_byte_boundary(clean, 2)
        }
    }
}

/// Whether the lightness of a colour code can be told without a panic.
pub open spec fn light_readable(hex: Seq<char>) -> bool {
    !lightness_slicing_fails(hex_clean(hex))
}

/// Relative luminance above one half, `0.2126 r + 0.7152 g + 0.0722 b > 0.5`
/// with each channel divided by 255, as single-precision arithmetic decides
/// it: the weighted sum of the bytes exceeds 1275000, or it equals 1275000 at
/// the one triple where rounding lifts the sum above one half.
pub open spec fn luminance_light(r: u8, g: u8, b: u8) -> bool {
    ||| 2126 * r + 7152 * g + 722 * b > 1275000
    ||| (r == 30 && g == 153 && b == 162)
}

/// Whether a colour code names a light colour; a code that cannot be read
/// counts as light.
pub open spec fn is_light(hex: Seq<char>) -> bool {
    match hex_rgb(hex_clean(hex)) {
        Some((r, g, b)) => luminance_light(r, g, b),
        None => true,
    }
}

fn hex_digit_exec(c: char) -> (res: Option<u32>)
    ensures
        match hex_digit(c) {
            Some(d) => res == Some(d as u32),
            None => res is None,
        },
{
    if '0' <= c && c <= '9' {
        Some(c as u32 - 48)
    } else if 'a' <= c && c <= 'f' {
        Some(c as u32 - 87)
    } else if 'A' <= c && c <= 'F' {
        Some(c as u32 - 55)
    } else {
        None
    }
}

fn hex_u8_exec(v: &Vec<char>, lo: usize, hi: usize) -> (res: Option<u32>)
    requires
        lo < hi <= v@.len(),
        hi - lo <= 2,
    ensures
        match hex_u8(v@.subrange(lo as int, hi as int)) {
            Some(d) => res == Some(d as u32) && d < 256,
            None => res is None,
        },
{
    let ghost chunk = v@.subrange(lo as int, hi as int);
    assert(chunk[0] == v@[lo as int]);
    if hi - lo == 1 {
        hex_digit_exec(v[lo])
    } else {
        assert(chunk[1] == v@[lo + 1]);
        if v[lo] == '+' {
            hex_digit_exec(v[lo + 1])
        } else {
            match (hex_digit_exec(v[lo]), hex_digit_exec(v[lo + 1])) {
                (Some(h), Some(l)) => Some(h * 16 + l),
                _ => None,
            }
        }
    }
}

/// Whether `v[lo..hi]` is all ASCII.
fn range_all_ascii(v: &Vec<char>, lo: usize, hi: usize) -> (res: bool)
    requires
        lo <= hi <= v@.len(),
    ensures
        res == all_ascii(v@.subrange(lo as int, hi as int)),
{
    let mut i = lo;
    while i < hi
        invariant
            lo <= i <= hi <= v@.len(),
            forall|j: int| lo <= j < i ==> is_ascii_char(v@[j]),
        decreases hi - i,
    {
        if (v[i] as u32) >= 0x80 {
            assert(!is_ascii_char(v@.subrange(lo as int, hi as int)[i - lo]));
            return false;
        }
        i = i + 1;
    }
    assert forall|j: int| 0 <= j < hi - lo implies is_ascii_char(
        #[trigger] v@.subrange(lo as int, hi as int)[j],
    ) by {
        assert(v@.subrange(lo as int, hi as int)[j] == v@[lo + j]);
    }
    true
}

/// The channels of `v[lo..hi]`, a code from which the `#` has been removed.
fn hex_rgb_exec(v: &Vec<char>, lo: usize, hi: usize) -> (res: Option<(u8, u8, u8)>)
    requires
        lo <= hi <= v@.len(),
    ensures
        res == hex_rgb(v@.subrange(lo as int, hi as int)),
{
    let ghost c = v@.subrange(lo as int, hi as int);
    if !range_all_ascii(v, lo, hi) {
        return None;
    }
    if hi - lo == 6 {
        assert(c.subrange(0, 2) =~= v@.subrange(lo as int, lo + 2));
        assert(c.subrange(2, 4) =~= v@.subrange(lo + 2, lo + 4));
        assert(c.subrange(4, 6) =~= v@.subrange(lo + 4, lo + 6));
        match (hex_u8_exec(v, lo, lo + 2), hex_u8_exec(v, lo + 2, lo + 4), hex_u8_exec(v, lo + 4, lo + 6)) {
            (Some(r), Some(g), Some(b)) => Some((r as u8, g as u8, b as u8)),
            _ => None,
        }
    } else if hi - lo == 3 {
        assert(c.subrange(0, 1) =~= v@.subrange(lo as int, lo + 1));
        assert(c.subrange(1, 2) =~= v@.subrange(lo + 1, lo + 2));
        assert(c.subrange(2, 3) =~= v@.subrange(lo + 2, lo + 3));
        match (hex_u8_exec(v, lo, lo + 1), hex_u8_exec(v, lo + 1, lo + 2), hex_u8_exec(v, lo + 2, lo + 3)) {
            (Some(r), Some(g), Some(b)) => Some(((17 * r) as u8, (17 * g) as u8, (17 * b) as u8)),
            _ => None,
        }
    } else {
        None
    }
}

fn utf8_width_exec(c: char) -> (res: usize)
    ensures
        res == utf8_width(c),
{
    let u = c as u32;
    if u < 0x80 {
        1
    } else if u < 0x800 {
        2
    } else if u < 0x10000 {
        3
    } else {
        4
    }
}

proof fn lemma_utf8_len_take_step(s: Seq<char>, k: int)
    requires
        0 <= k < s.len(),
    ensures
        utf8_len(s.take(k + 1)) == utf8_len(s.take(k)) + utf8_width(s[k]),
{
    assert(s.take(k + 1).drop_last() =~= s.take(k));
}

/// Longer prefixes have strictly longer encodings.
proof fn lemma_utf8_len_take_grows(s: Seq<char>, i: int, j: int)
    requires
        0 <= i <= j <= s.len(),
    ensures
        utf8_len(s.take(j)) >= utf8_len(s.take(i)) + (j - i),
    decreases j - i,
{
    if i < j {
        lemma_utf8_len_take_grows(s, i, j - 1);
        lemma_utf8_len_take_step(s, j - 1);
    }
}

/// The byte length of the encoding of `v[lo..hi]`, or 7 where it exceeds 6.
fn utf8_len_upto7(v: &Vec<char>, lo: usize, hi: usize) -> (res: usize)
    requires
        lo <= hi <= v@.len(),
    ensures
        res <= 7,
        res < 7 ==> res == utf8_len(v@.subrange(lo as int, hi as int)),
        res == 7 ==> utf8_len(v@.subrange(lo as int, hi as int)) >= 7,
{
    let ghost s = v@.subrange(lo as int, hi as int);
    let mut n: usize = 0;
    let mut i = lo;
    while i < hi
        invariant
            lo <= i <= hi <= v@.len(),
            s == v@.subrange(lo as int, hi as int),
            n <= 6,
            n == utf8_len(s.take(i - lo)),
        decreases hi - i,
    {
        proof {
            lemma_utf8_len_take_step(s, i - lo);
        }
        let w = utf8_width_exec(v[i]);
        if n + w > 6 {
            proof {
                lemma_utf8_len_take_grows(s, i - lo + 1, s.len() as int);
                assert(s.take(s.len() as int) =~= s);
            }
            return 7;
        }
        n = n + w;
        i = i + 1;
    }
    assert(s.take(hi - lo) =~= s);
    n
}

/// Whether byte offset `b` falls between two characters of `v[lo..hi]`.
fn byte_boundary_exec(v: &Vec<char>, lo: usize, hi: usize, b: usize) -> (res: bool)
    requires
        lo <= hi <= v@.len(),
        b <= 6,
    ensures
        res == is_byte_boundary(v@.subrange(lo as int, hi as int), b as int),
{
    let ghost s = v@.subrange(lo as int, hi as int);
    let mut n: usize = 0;
    let mut i = lo;
    while i < hi && n < b
        invariant
            lo <= i <= hi <= v@.len(),
            s == v@.subrange(lo as int, hi as int),
            b <= 6,
            n == utf8_len(s.take(i - lo)),
            n <= b + 3,
            forall|k: int| 0 <= k < i - lo ==> utf8_len(#[trigger] s.take(k)) < b,
        decreases hi - i,
    {
        proof {
            lemma_utf8_len_take_step(s, i - lo);
        }
        let w = utf8_width_exec(v[i]);
        n = n + w;
        i = i + 1;
    }
    if n == b {
        return true;
    }
    proof {
        assert forall|k: int| 0 <= k <= s.len() implies #[trigger] utf8_len(s.take(k)) != b by {
            if k > i - lo {
                lemma_utf8_len_take_grows(s, i - lo, k);
            }
        }
    }
    false
}

/// Whether reading `v[lo..hi]` (a code without its `#`) would slice inside a
/// character.
fn hex_slicing_fails_exec(v: &Vec<char>, lo: usize, hi: usize) -> (res: bool)
    requires
        lo <= hi <= v@.len(),
    ensures
        res == hex_slicing_fails(v@.subrange(lo as int, hi as int)),
{
    if range_all_ascii(v, lo, hi) {
        return false;
    }
    let n = utf8_len_upto7(v, lo, hi);
    if n == 6 {
        !(byte_boundary_exec(v, lo, hi, 2) && byte_boundary_exec(v, lo, hi, 4))
    } else if n == 3 {
        !(byte_boundary_exec(v, lo, hi, 1) && byte_boundary_exec(v, lo, hi, 2))
    } else {
        false
    }
}

/// Whether telling the lightness of `v[lo..hi]` (a code without its `#`)
/// would slice inside a character.
fn lightness_slicing_fails_exec(v: &Vec<char>, lo: usize, hi: usize) -> (res: bool)
    requires
        lo <= hi <= v@.len(),
    ensures
        res == lightness_slicing_fails(v@.subrange(lo as int, hi as int)),
{
    let ghost c = v@.subrange(lo as int, hi as int);
    if range_all_ascii(v, lo, hi) {
        return false;
    }
    let n = utf8_len_upto7(v, lo, hi);
    if n == 6 {
        if !byte_boundary_exec(v, lo, hi, 2) {
            return true;
        }
        if hi - lo < 2 {
            return false;
        }
        assert(c.subrange(0, 2) =~= v@.subrange(lo as int, lo + 2));
        let first = hex_u8_exec(v, lo, lo + 2);
        first.is_some() && !byte_boundary_exec(v, lo, hi, 4)
    } else if n == 3 {
        if !byte_boundary_exec(v, lo, hi, 1) {
            return true;
        }
        if hi - lo < 1 {
            return false;
        }
        assert(c[0] == v@[lo as int]);
        let first = hex_digit_exec(v[lo]);
        first.is_some() && !byte_boundary_exec(v, lo, hi, 2)
    } else {
        false
    }
}

/// The bounds of `hex_clean(v[lo..hi])` inside `v`.
fn hex_clean_bounds(v: &Vec<char>, lo: usize, hi: usize) -> (res: (usize, usize))
    requires
        lo <= hi <= v@.len(),
    ensures
        lo <= res.0 <= res.1 <= hi,
        v@.subrange(res.0 as int, res.1 as int) == hex_clean(v@.subrange(lo as int, hi as int)),
{
    let (a, b) = strip_bounds(v, lo, hi, CharClass::Whitespace);
    let c = strip_start_bound(v, a, b, CharClass::Exactly('#'));
    (c, b)
}

/// Whether the colour code `v[lo..hi]` can be read without a panic.
pub fn hex_readable_range(v: &Vec<char>, lo: usize, hi: usize) -> (res: bool)
    requires
        lo <= hi <= v@.len(),
    ensures
        res == hex_readable(v@.subrange(lo as int, hi as int)),
{
    let (a, b) = hex_clean_bounds(v, lo, hi);
    !hex_slicing_fails_exec(v, a, b)
}

fn luminance_light_exec(r: u8, g: u8, b: u8) -> (res: bool)
    ensures
        res == luminance_light(r, g, b),
{
    let sum: u32 = 2126 * (r as u32) + 7152 * (g as u32) + 722 * (b as u32);
    sum > 1275000 || (r == 30 && g == 153 && b == 162)
}

/// Whether the lightness of the colour code `v[lo..hi]` can be told without
/// a panic.
pub fn light_readable_range(v: &Vec<char>, lo: usize, hi: usize) -> (res: bool)
    requires
        lo <= hi <= v@.len(),
    ensures
        res == light_readable(v@.subrange(lo as int, hi as int)),
{
    let (a, b) = hex_clean_bounds(v, lo, hi);
    !lightness_slicing_fails_exec(v, a, b)
}

/// Whether the colour code `v[lo..hi]` names a light colour.
pub fn is_light_range(v: &Vec<char>, lo: usize, hi: usize) -> (res: bool)
    requires
        lo <= hi <= v@.len(),
        light_readable(v@.subrange(lo as int, hi as int)),
    ensures
        res == is_light(v@.subrange(lo as int, hi as int)),
{
    let (a, b) = hex_clean_bounds(v, lo, hi);
    match hex_rgb_exec(v, a, b) {
        Some((r, g, bl)) => luminance_light_exec(r, g, bl),
        None => true,
    }
}

/// Whether the lightness of a colour code can be told without a panic.
pub fn light_color_readable(hex: &str) -> (res: bool)
    ensures
        res == light_readable(hex@),
{
    let v = chars_of(hex);
    assert(v@.subrange(0, v@.len() as int) =~= v@);
    light_readable_range(&v, 0, v.len())
}

/// Whether a colour code can be read without a panic: a code whose UTF-8
/// encoding would be sliced inside a character cannot.
pub fn hex_color_readable(hex: &str) -> (res: bool)
    ensures
        res == hex_readable(hex@),
{
    let v = chars_of(hex);
    assert(v@.subrange(0, v@.len() as int) =~= v@);
    hex_readable_range(&v, 0, v.len())
}

/// Whether `hex` (`#rrggbb` or `#rgb`, white space and any number of leading
/// `#` allowed) names a colour whose relative luminance exceeds one half.
/// A code that cannot be read counts as light.
pub fn is_light_color(hex: &str) -> (res: bool)
    requires
        light_readable(hex@),
    ensures
        res == is_light(hex@),
{
    let v = chars_of(hex);
    assert(v@.subrange(0, v@.len() as int) =~= v@);
    is_light_range(&v, 0, v.len())
}

/// The red, green and blue channels of a colour code, on a 0..=255 scale,
/// as `hex_to_rgba` writes them; black where the code cannot be read.
pub fn rgba_channels(hex: &str) -> (res: (u8, u8, u8))
    requires
        hex_readable(hex@),
    ensures
        res == (match hex_rgb(hex_clean(hex@)) {
            Some(c) => c,
            None => (0u8, 0u8, 0u8),
        }),
{
    let v = chars_of(hex);
    assert(v@.subrange(0, v@.len() as int) =~= v@);
    let (a, b) = hex_clean_bounds(&v, 0, v.len());
    match hex_rgb_exec(&v, a, b) {
        Some(c) => c,
        None => (0, 0, 0),
    }
}

/// The CSS `rgba(...)` text of a colour code up to its alpha value:
/// `rgba(r, g, b, ` with the channels in decimal, black where the code
/// cannot be read.
pub fn rgba_prefix(hex: &str) -> (res: String)
    requires
        hex_readable(hex@),
    ensures
        ({
            let c = match hex_rgb(hex_clean(hex@)) {
                Some(c) => c,
                None => (0u8, 0u8, 0u8),
            };
            res@ == "rgba("@ + int_decimal(c.0 as int) + ", "@ + int_decimal(c.1 as int) + ", "@
                + int_decimal(c.2 as int) + ", "@
        }),
{
    let (r, g, b) = rgba_channels(hex);
    let mut s = "rgba(".to_owned();
    append_chars(&mut s, &i64_decimal(r as i64));
    s.append(", ");
    append_chars(&mut s, &i64_decimal(g as i64));
    s.append(", ");
    append_chars(&mut s, &i64_decimal(b as i64));
    s.append(", ");
    s
}

/// Removing characters from the start of an ASCII text leaves ASCII text.
pub proof fn lemma_strip_start_ascii(s: Seq<char>, k: CharClass)
    requires
        all_ascii(s),
    ensures
        all_ascii(strip_start(s, k)),
    decreases s.len(),
{
    if s.len() > 0 && k.holds(s[0]) {
        assert forall|i: int| 0 <= i < s.drop_first().len() implies is_ascii_char(#[trigger] s.drop_first()[i]) by {
            assert(s.drop_first()[i] == s[i + 1]);
        }
        lemma_strip_start_ascii(s.drop_first(), k);
    }
}

/// Removing characters from the end of an ASCII text leaves ASCII text.
pub proof fn lemma_strip_end_ascii(s: Seq<char>, k: CharClass)
    requires
        all_ascii(s),
    ensures
        all_ascii(crate::text::strip_end(s, k)),
    decreases s.len(),
{
    if s.len() > 0 && k.holds(s.last()) {
        assert forall|i: int| 0 <= i < s.drop_last().len() implies is_ascii_char(#[trigger] s.drop_last()[i]) by {
            assert(s.drop_last()[i] == s[i]);
        }
        lemma_strip_end_ascii(s.drop_last(), k);
    }
}

/// Stripping both ends of an ASCII text leaves ASCII text.
pub proof fn lemma_strip_ascii(s: Seq<char>, k: CharClass)
    requires
        all_ascii(s),
    ensures
        all_ascii(crate::text::strip(s, k)),
{
    lemma_strip_start_ascii(s, k);
    lemma_strip_end_ascii(strip_start(s, k), k);
}

/// `str::is_ascii` on a text's characters is `all_ascii`.
pub proof fn lemma_is_ascii_chars(s: Seq<char>)
    requires
        vstd::utf8::is_ascii_chars(s),
    ensures
        all_ascii(s),
{
    assert forall|i: int| 0 <= i < s.len() implies is_ascii_char(#[trigger] s[i]) by {
        assert('\0' <= s[i] <= '\u{7f}');
    }
}

/// An ASCII colour code is always readable: slicing it never falls inside
/// a character.
pub proof fn lemma_ascii_hex_readable(hex: Seq<char>)
    requires
        all_ascii(hex),
    ensures
        hex_readable(hex),
{
    lemma_strip_ascii(hex, CharClass::Whitespace);
    lemma_strip_start_ascii(trim(hex), CharClass::Exactly('#'));
}

/// The lightness of an ASCII colour code can always be told: slicing it
/// never falls inside a character.
pub proof fn lemma_ascii_light_readable(hex: Seq<char>)
    requires
        all_ascii(hex),
    ensures
        light_readable(hex),
{
    lemma_strip_ascii(hex, CharClass::Whitespace);
    lemma_strip_start_ascii(trim(hex), CharClass::Exactly('#'));
}

/// A character with ASCII capitals folded to small letters.
pub open spec fn ascii_lower(c: char) -> char {
    if 'A' <= c <= 'Z' {
        ((c as u32) + 32) as char
    } else {
        c
    }
}

/// A text with its ASCII capitals folded to small letters.
pub open spec fn ascii_lowercase(s: Seq<char>) -> Seq<char> {
    s.map_values(|c: char| ascii_lower(c))
}

proof fn lemma_hex_digit_lower(c: char)
    ensures
        hex_digit(ascii_lower(c)) == hex_digit(c),
        is_ascii_char(ascii_lower(c)) == is_ascii_char(c),
        (ascii_lower(c) == '+') == (c == '+'),
{
    if 'A' <= c <= 'Z' {
        assert((((c as u32) + 32) as char) as nat == c as nat + 32);
    }
}

proof fn lemma_hex_u8_lower(chunk: Seq<char>)
    requires
        1 <= chunk.len() <= 2,
    ensures
        hex_u8(ascii_lowercase(chunk)) == hex_u8(chunk),
{
    let l = ascii_lowercase(chunk);
    lemma_hex_digit_lower(chunk[0]);
    assert(l[0] == ascii_lower(chunk[0]));
    if chunk.len() == 2 {
        lemma_hex_digit_lower(chunk[1]);
        assert(l[1] == ascii_lower(chunk[1]));
    }
}

/// Reading a colour code does not depend on the case of its letters: a code
/// and the same code in small letters have the same channels, so `#FF8000`
/// reads as `#ff8000` does.
pub proof fn lemma_hex_rgb_ignores_case(clean: Seq<char>)
    ensures
        hex_rgb(ascii_lowercase(clean)) == hex_rgb(clean),
{
    let l = ascii_lowercase(clean);
    assert forall|i: int| 0 <= i < clean.len() implies is_ascii_char(#[trigger] l[i]) == is_ascii_char(
        clean[i],
    ) by {
        lemma_hex_digit_lower(clean[i]);
    }
    if all_ascii(clean) != all_ascii(l) {
        if all_ascii(clean) {
            let i = choose|i: int| 0 <= i < l.len() && !is_ascii_char(#[trigger] l[i]);
            assert(is_ascii_char(clean[i]));
        } else {
            let i = choose|i: int| 0 <= i < clean.len() && !is_ascii_char(#[trigger] clean[i]);
            assert(is_ascii_char(l[i]));
        }
    }
    if clean.len() == 6 {
        let bounds = seq![0int, 2, 4, 6];
        assert forall|k: int| 0 <= k < 3 implies hex_u8(#[trigger] l.subrange(bounds[k], bounds[k + 1]))
            == hex_u8(clean.subrange(bounds[k], bounds[k + 1])) by {
            assert(l.subrange(bounds[k], bounds[k + 1]) =~= ascii_lowercase(
                clean.subrange(bounds[k], bounds[k + 1]),
            ));
            lemma_hex_u8_lower(clean.subrange(bounds[k], bounds[k + 1]));
        }
        assert(hex_u8(l.subrange(bounds[0], bounds[1])) == hex_u8(clean.subrange(0, 2)));
        assert(hex_u8(l.subrange(bounds[1], bounds[2])) == hex_u8(clean.subrange(2, 4)));
        assert(hex_u8(l.subrange(bounds[2], bounds[3])) == hex_u8(clean.subrange(4, 6)));
    } else if clean.len() == 3 {
        assert forall|k: int| 0 <= k < 3 implies hex_u8(#[trigger] l.subrange(k, k + 1)) == hex_u8(
            clean.subrange(k, k + 1),
        ) by {
            assert(l.subrange(k, k + 1) =~= ascii_lowercase(clean.subrange(k, k + 1)));
            lemma_hex_u8_lower(clean.subrange(k, k + 1));
        }
        assert(hex_u8(l.subrange(0, 1)) == hex_u8(clean.subrange(0, 1)));
        assert(hex_u8(l.subrange(1, 2)) == hex_u8(clean.subrange(1, 2)));
        assert(hex_u8(l.subrange(2, 3)) == hex_u8(clean.subrange(2, 3)));
    }
}

/// A pair of hex digits, in either case, reads as the number they write in
/// base sixteen, and a single digit as its own value.
pub proof fn lemma_hex_pair_value(hi: char, lo: char)
    requires
        hex_digit(hi) is Some,
        hex_digit(lo) is Some,
    ensures
        hex_u8(seq![hi, lo]) == Some(16 * hex_digit(hi)->0 + hex_digit(lo)->0),
        hex_u8(seq![lo]) == hex_digit(lo),
        ('0' <= lo <= '9') ==> hex_digit(lo) == Some((lo as nat - '0' as nat) as nat),
        ('a' <= lo <= 'f') ==> hex_digit(lo) == Some((lo as nat - 'a' as nat + 10) as nat),
        ('A' <= lo <= 'F') ==> hex_digit(lo) == Some((lo as nat - 'A' as nat + 10) as nat),
{
}

/// A readable code names a light colour exactly where its relative
/// luminance `0.2126 r + 0.7152 g + 0.0722 b`, with each channel over 255,
/// exceeds one half, that is where `2 (2126 r + 7152 g + 722 b)` exceeds
/// `10000 * 255`; the one exception is the triple (30, 153, 162), whose sum
/// sits exactly on one half and which single-precision rounding lifts above
/// it. Pure red, blue and magenta are therefore dark, and pure green, yellow
/// and white light.
pub proof fn lemma_light_by_luminance(hex: Seq<char>, r: u8, g: u8, b: u8)
    requires
        hex_rgb(hex_clean(hex)) == Some((r, g, b)),
    ensures
        is_light(hex) == (2 * (2126 * r + 7152 * g + 722 * b) > 10000 * 255 || (r == 30 && g == 153 && b
            == 162)),
        (r, g, b) == (255u8, 0u8, 0u8) ==> !is_light(hex),
        (r, g, b) == (0u8, 0u8, 255u8) ==> !is_light(hex),
        (r, g, b) == (255u8, 0u8, 255u8) ==> !is_light(hex),
        (r, g, b) == (0u8, 255u8, 0u8) ==> is_light(hex),
        (r, g, b) == (255u8, 255u8, 0u8) ==> is_light(hex),
        (r, g, b) == (255u8, 255u8, 255u8) ==> is_light(hex),
        (r, g, b) == (0u8, 0u8, 0u8) ==> !is_light(hex),
{
}

/// Codes that cannot be read count as light.
pub proof fn lemma_unreadable_code_is_light(hex: Seq<char>)
    requires
        hex_rgb(hex_clean(hex)) is None,
    ensures
        is_light(hex),
{
}

} // verus!
