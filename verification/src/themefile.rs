//! The `key = value` format of Omarchy's `colors.toml`, as far as the theme
//! needs it: one assignment per line, `#` comments, blank lines, values
//! optionally quoted.
use vstd::prelude::*;
use crate::text::{CharClass, strip, trim, strip_bounds};
use crate::color::{all_ascii, is_ascii_char, lemma_strip_ascii};

verus! {

/// The pieces of `s` between its newlines (`str::split('\n')`; there is
/// always at least one piece).
pub open spec fn split_lines(s: Seq<char>) -> Seq<Seq<char>>
    decreases s.len(),
{
    if s.len() == 0 {
        seq![Seq::<char>::empty()]
    } else if s.last() == '\n' {
        split_lines(s.drop_last()).push(Seq::<char>::empty())
    } else {
        let l = split_lines(s.drop_last());
        l.update(l.len() - 1, l.last().push(s.last()))
    }
}

/// `p` is the first position of `c` in `s`.
pub open spec fn is_first_index(s: Seq<char>, c: char, p: int) -> bool {
    &&& 0 <= p < s.len()
    &&& s[p] == c
    &&& forall|j: int| 0 <= j < p ==> s[j] != c
}

/// A value as the theme reads it: trimmed, then stripped of double quotes
/// and of single quotes at both ends, then trimmed again.
pub open spec fn theme_value(raw: Seq<char>) -> Seq<char> {
    trim(strip(strip(trim(raw), CharClass::Exactly('"')), CharClass::Exactly('\'')))
}

/// What one line assigns: nothing for a blank line, a line whose first
/// non-blank character is `#`, or a line without `=`; otherwise the
/// trimmed text before the first `=` and the value after it.
pub open spec fn parse_line(line: Seq<char>) -> Option<(Seq<char>, Seq<char>)> {
    let t = trim(line);
    if t.len() == 0 || t[0] == '#' {
        None
    } else if exists|p: int| is_first_index(t, '=', p) {
        let p = choose|p: int| is_first_index(t, '=', p);
        Some((trim(t.take(p)), theme_value(t.skip(p + 1))))
    } else {
        None
    }
}

pub open spec fn option_seq<A>(o: Option<A>) -> Seq<A> {
    match o {
        Some(a) => seq![a],
        None => Seq::empty(),
    }
}

/// The assignments of a sequence of lines, in order.
pub open spec fn entries_of(lines: Seq<Seq<char>>) -> Seq<(Seq<char>, Seq<char>)>
    decreases lines.len(),
{
    if lines.len() == 0 {
        Seq::empty()
    } else {
        entries_of(lines.drop_last()) + option_seq(parse_line(lines.last()))
    }
}

/// The assignments of a theme file, in the order of its lines.
pub open spec fn theme_entries(content: Seq<char>) -> Seq<(Seq<char>, Seq<char>)> {
    entries_of(split_lines(content))
}

/// The value last assigned to `key`.
pub open spec fn lookup(entries: Seq<(Seq<char>, Seq<char>)>, key: Seq<char>) -> Option<Seq<char>>
    decreases entries.len(),
{
    if entries.len() == 0 {
        None
    } else if entries.last().0 == key {
        Some(entries.last().1)
    } else {
        lookup(entries.drop_last(), key)
    }
}

/// The value of the first of `keys` that is assigned, or `default`.
pub open spec fn pick(entries: Seq<(Seq<char>, Seq<char>)>, keys: Seq<Seq<char>>, default: Seq<char>) -> Seq<
    char,
>
    decreases keys.len(),
{
    if keys.len() == 0 {
        default
    } else {
        match lookup(entries, keys[0]) {
            Some(v) => v,
            None => pick(entries, keys.drop_first(), default),
        }
    }
}

/// One assignment of a theme file.
pub struct ThemeEntry {
    pub key: Vec<char>,
    pub value: Vec<char>,
}

/// `ev` holds the assignments `sv`.
pub open spec fn entries_match(ev: Seq<ThemeEntry>, sv: Seq<(Seq<char>, Seq<char>)>) -> bool {
    &&& ev.len() == sv.len()
    &&& forall|i: int| 0 <= i < ev.len() ==> (#[trigger] ev[i]).key@ == sv[i].0 && ev[i].value@ == sv[i].1
}

proof fn lemma_split_lines_nonempty(s: Seq<char>)
    ensures
        split_lines(s).len() >= 1,
    decreases s.len(),
{
    if s.len() > 0 {
        lemma_split_lines_nonempty(s.drop_last());
    }
}

/// The first `=` of `v[lo..hi]`, if any.
fn find_eq(v: &Vec<char>, lo: usize, hi: usize) -> (res: Option<usize>)
    requires
        lo <= hi <= v@.len(),
    ensures
        match res {
            Some(p) => lo <= p < hi && is_first_index(v@.subrange(lo as int, hi as int), '=', p - lo),
            None => !exists|p: int| is_first_index(v@.subrange(lo as int, hi as int), '=', p),
        },
{
    let ghost t = v@.subrange(lo as int, hi as int);
    let mut i = lo;
    while i < hi
        invariant
            lo <= i <= hi <= v@.len(),
            t == v@.subrange(lo as int, hi as int),
            forall|j: int| 0 <= j < i - lo ==> t[j] != '=',
        decreases hi - i,
    {
        if v[i] == '=' {
            return Some(i);
        }
        i = i + 1;
    }
    None
}

/// What the line `v[lo..hi]` assigns.
fn parse_line_exec(v: &Vec<char>, lo: usize, hi: usize) -> (res: Option<ThemeEntry>)
    requires
        lo <= hi <= v@.len(),
    ensures
        match parse_line(v@.subrange(lo as int, hi as int)) {
            Some(e) => res is Some && res->0.key@ == e.0 && res->0.value@ == e.1,
            None => res is None,
        },
{
    let ghost line = v@.subrange(lo as int, hi as int);
    let (a, b) = strip_bounds(v, lo, hi, CharClass::Whitespace);
    let ghost t = v@.subrange(a as int, b as int);
    assert(t == trim(line));
    if a == b || v[a] == '#' {
        return None;
    }
    match find_eq(v, a, b) {
        None => None,
        Some(p) => {
            let ghost q = choose|q: int| is_first_index(t, '=', q);
            assert(q == p - a) by {
                if q < p - a {
                    assert(t[q] == '=');
                } else if q > p - a {
                    assert(t[p - a] == '=');
                }
            }
            let (ka, kb) = strip_bounds(v, a, p, CharClass::Whitespace);
            assert(v@.subrange(a as int, p as int) =~= t.take(p - a));
            let (v1a, v1b) = strip_bounds(v, p + 1, b, CharClass::Whitespace);
            assert(v@.subrange(p + 1, b as int) =~= t.skip(p - a + 1));
            let (v2a, v2b) = strip_bounds(v, v1a, v1b, CharClass::Exactly('"'));
            let (v3a, v3b) = strip_bounds(v, v2a, v2b, CharClass::Exactly('\''));
            let (v4a, v4b) = strip_bounds(v, v3a, v3b, CharClass::Whitespace);
            let key = crate::text::chars_sub(v, ka, kb);
            let value = crate::text::chars_sub(v, v4a, v4b);
            Some(ThemeEntry { key, value })
        },
    }
}

/// The assignments of a theme file.
pub fn theme_entries_exec(content: &Vec<char>) -> (res: Vec<ThemeEntry>)
    ensures
        entries_match(res@, theme_entries(content@)),
{
    let ghost s = content@;
    let mut res: Vec<ThemeEntry> = Vec::new();
    let mut start: usize = 0;
    let mut i: usize = 0;
    proof {
        assert(s.take(0) =~= Seq::<char>::empty());
        assert(split_lines(s.take(0)).drop_last() =~= Seq::<Seq<char>>::empty());
    }
    while i < content.len()
        invariant
            0 <= start <= i <= s.len(),
            s == content@,
            split_lines(s.take(i as int)).len() >= 1,
            split_lines(s.take(i as int)).last() == s.subrange(start as int, i as int),
            entries_match(res@, entries_of(split_lines(s.take(i as int)).drop_last())),
        decreases s.len() - i,
    {
        let ghost old_lines = split_lines(s.take(i as int));
        let ghost new_lines = split_lines(s.take(i + 1));
        assert(s.take(i + 1).drop_last() =~= s.take(i as int));
        assert(s.take(i + 1).last() == s[i as int]);
        if content[i] == '\n' {
            assert(new_lines == old_lines.push(Seq::<char>::empty()));
            assert(new_lines.drop_last() =~= old_lines);
            assert(old_lines =~= old_lines.drop_last().push(old_lines.last()));
            let parsed = parse_line_exec(content, start, i);
            let ghost prev = res@;
            match parsed {
                Some(e) => {
                    res.push(e);
                },
                None => {},
            }
            proof {
                let sv = entries_of(old_lines.drop_last());
                assert(entries_of(old_lines) == sv + option_seq(parse_line(old_lines.last())));
                assert(entries_match(res@, entries_of(old_lines))) by {
                    match parse_line(old_lines.last()) {
                        Some(e) => {
                            assert(entries_of(old_lines) =~= sv.push(e));
                        },
                        None => {
                            assert(entries_of(old_lines) =~= sv);
                        },
                    }
                }
                assert(s.subrange(i + 1, i + 1) =~= Seq::<char>::empty());
            }
            start = i + 1;
        } else {
            assert(new_lines == old_lines.update(
                old_lines.len() - 1,
                old_lines.last().push(s[i as int]),
            ));
            assert(new_lines.drop_last() =~= old_lines.drop_last());
            assert(new_lines.last() == old_lines.last().push(s[i as int]));
            assert(s.subrange(start as int, i + 1) =~= s.subrange(start as int, i as int).push(
                s[i as int],
            ));
        }
        i = i + 1;
    }
    let ghost lines = split_lines(s.take(i as int));
    assert(s.take(i as int) =~= s);
    assert(lines =~= lines.drop_last().push(lines.last()));
    let parsed = parse_line_exec(content, start, i);
    match parsed {
        Some(e) => {
            res.push(e);
        },
        None => {},
    }
    proof {
        let sv = entries_of(lines.drop_last());
        assert(entries_of(lines) == sv + option_seq(parse_line(lines.last())));
        match parse_line(lines.last()) {
            Some(e) => {
                assert(entries_of(lines) =~= sv.push(e));
            },
            None => {
                assert(entries_of(lines) =~= sv);
            },
        }
    }
    res
}

/// The position of the assignment that gives `key` its value, if any.
pub fn lookup_exec(entries: &Vec<ThemeEntry>, key: &Vec<char>, Ghost(sv): Ghost<
    Seq<(Seq<char>, Seq<char>)>,
>) -> (res: Option<usize>)
    requires
        entries_match(entries@, sv),
    ensures
        match lookup(sv, key@) {
            Some(v) => res is Some && res->0 < entries@.len() && entries@[res->0 as int].value@ == v,
            None => res is None,
        },
{
    let mut j = entries.len();
    assert(sv.take(j as int) =~= sv);
    while j > 0
        invariant
            0 <= j <= entries@.len(),
            entries_match(entries@, sv),
            lookup(sv, key@) == lookup(sv.take(j as int), key@),
        decreases j,
    {
        let e = &entries[j - 1];
        assert(sv.take(j as int).last() == sv[j - 1]);
        if crate::text::chars_eq(&e.key, key) {
            return Some(j - 1);
        }
        assert(sv.take(j as int).drop_last() =~= sv.take(j - 1));
        j = j - 1;
    }
    None
}

/// The characters of the value of the first of `keys` that is assigned,
/// or of `default`.
pub fn pick_exec(entries: &Vec<ThemeEntry>, keys: &Vec<Vec<char>>, default: &Vec<char>, Ghost(sv): Ghost<
    Seq<(Seq<char>, Seq<char>)>,
>) -> (res: Vec<char>)
    requires
        entries_match(entries@, sv),
    ensures
        res@ == pick(sv, keys@.map_values(|k: Vec<char>| k@), default@),
{
    let ghost ks = keys@.map_values(|k: Vec<char>| k@);
    let mut i: usize = 0;
    assert(ks.skip(0) =~= ks);
    while i < keys.len()
        invariant
            0 <= i <= keys@.len(),
            ks == keys@.map_values(|k: Vec<char>| k@),
            entries_match(entries@, sv),
            pick(sv, ks, default@) == pick(sv, ks.skip(i as int), default@),
        decreases keys@.len() - i,
    {
        assert(ks.skip(i as int)[0] == keys@[i as int]@);
        assert(ks.skip(i as int).drop_first() =~= ks.skip(i + 1));
        match lookup_exec(entries, &keys[i], Ghost(sv)) {
            Some(j) => {
                return crate::text::chars_copy(&entries[j].value);
            },
            None => {},
        }
        i = i + 1;
    }
    assert(ks.skip(i as int) =~= Seq::<Seq<char>>::empty());
    crate::text::chars_copy(default)
}


/// Splitting at a newline: the lines of `a`, a newline and `b` are the
/// lines of `a` followed by the lines of `b`.
pub proof fn lemma_split_lines_concat(a: Seq<char>, b: Seq<char>)
    ensures
        split_lines(a + seq!['\n'] + b) == split_lines(a) + split_lines(b),
    decreases b.len(),
{
    let s = a + seq!['\n'] + b;
    lemma_split_lines_nonempty(a);
    if b.len() == 0 {
        assert(s =~= a.push('\n'));
        assert(s.drop_last() =~= a);
        assert(split_lines(a) + split_lines(b) =~= split_lines(a).push(Seq::<char>::empty()));
    } else {
        assert(s.drop_last() =~= a + seq!['\n'] + b.drop_last());
        assert(s.last() == b.last());
        lemma_split_lines_concat(a, b.drop_last());
        lemma_split_lines_nonempty(b.drop_last());
        let la = split_lines(a);
        let lb = split_lines(b.drop_last());
        if b.last() == '\n' {
            assert(split_lines(a) + split_lines(b) =~= (la + lb).push(Seq::<char>::empty()));
        } else {
            assert((la + lb).update((la + lb).len() - 1, (la + lb).last().push(b.last())) =~= la
                + lb.update(lb.len() - 1, lb.last().push(b.last())));
        }
    }
}

/// The assignments of two runs of lines are those of the first followed by
/// those of the second.
pub proof fn lemma_entries_of_concat(l1: Seq<Seq<char>>, l2: Seq<Seq<char>>)
    ensures
        entries_of(l1 + l2) == entries_of(l1) + entries_of(l2),
    decreases l2.len(),
{
    if l2.len() == 0 {
        assert(l1 + l2 =~= l1);
        assert(entries_of(l1) + entries_of(l2) =~= entries_of(l1));
    } else {
        assert((l1 + l2).drop_last() =~= l1 + l2.drop_last());
        assert((l1 + l2).last() == l2.last());
        lemma_entries_of_concat(l1, l2.drop_last());
        assert(entries_of(l1 + l2) =~= entries_of(l1) + entries_of(l2));
    }
}

/// Lines are read independently of each other: the assignments of a file
/// made of `a`, a newline and `b` are those of `a` followed by those of `b`.
pub proof fn lemma_theme_entries_concat(a: Seq<char>, b: Seq<char>)
    ensures
        theme_entries(a + seq!['\n'] + b) == theme_entries(a) + theme_entries(b),
{
    lemma_split_lines_concat(a, b);
    lemma_entries_of_concat(split_lines(a), split_lines(b));
}

/// A later assignment overrides an earlier one: in assignments `e1`
/// followed by `e2`, a key takes its value from `e2` where `e2` assigns it.
pub proof fn lemma_lookup_concat(e1: Seq<(Seq<char>, Seq<char>)>, e2: Seq<(Seq<char>, Seq<char>)>, key: Seq<
    char,
>)
    ensures
        lookup(e1 + e2, key) == (match lookup(e2, key) {
            Some(v) => Some(v),
            None => lookup(e1, key),
        }),
    decreases e2.len(),
{
    if e2.len() == 0 {
        assert(e1 + e2 =~= e1);
    } else {
        assert((e1 + e2).drop_last() =~= e1 + e2.drop_last());
        assert((e1 + e2).last() == e2.last());
        lemma_lookup_concat(e1, e2.drop_last(), key);
    }
}

/// A text without a newline is one line.
pub proof fn lemma_split_lines_single(b: Seq<char>)
    requires
        forall|i: int| 0 <= i < b.len() ==> b[i] != '\n',
    ensures
        split_lines(b) == seq![b],
    decreases b.len(),
{
    if b.len() > 0 {
        lemma_split_lines_single(b.drop_last());
        assert(b.last() != '\n');
        assert(b.drop_last().push(b.last()) =~= b);
        assert(seq![b.drop_last()].update(0, b) =~= seq![b]);
    } else {
        assert(b =~= Seq::<char>::empty());
    }
}

/// Blank lines, comment lines and lines without `=` assign nothing: adding
/// such a line after a file leaves its assignments as they are.
pub proof fn lemma_inert_line(a: Seq<char>, b: Seq<char>)
    requires
        forall|i: int| 0 <= i < b.len() ==> b[i] != '\n',
        parse_line(b) is None,
    ensures
        theme_entries(a + seq!['\n'] + b) == theme_entries(a),
{
    lemma_theme_entries_concat(a, b);
    lemma_split_lines_single(b);
    assert(seq![b].drop_last() =~= Seq::<Seq<char>>::empty());
    assert(seq![b].last() == b);
    assert(entries_of(Seq::<Seq<char>>::empty()) =~= Seq::<(Seq<char>, Seq<char>)>::empty());
    assert(entries_of(seq![b]) =~= entries_of(seq![b].drop_last()) + option_seq(parse_line(b)));
    assert(theme_entries(b) =~= Seq::<(Seq<char>, Seq<char>)>::empty());
    assert(theme_entries(a) + theme_entries(b) =~= theme_entries(a));
}

/// A line whose first non-blank character is `#` is a comment, and a blank
/// line is empty: neither assigns anything.
pub proof fn lemma_comment_line_inert(b: Seq<char>)
    requires
        trim(b).len() == 0 || trim(b)[0] == '#',
    ensures
        parse_line(b) is None,
{
}

/// The lines of an ASCII text are ASCII.
pub proof fn lemma_split_lines_ascii(s: Seq<char>)
    requires
        all_ascii(s),
    ensures
        forall|i: int| 0 <= i < split_lines(s).len() ==> all_ascii(#[trigger] split_lines(s)[i]),
    decreases s.len(),
{
    if s.len() > 0 {
        let d = s.drop_last();
        assert forall|i: int| 0 <= i < d.len() implies is_ascii_char(#[trigger] d[i]) by {
            assert(d[i] == s[i]);
        }
        lemma_split_lines_ascii(d);
        lemma_split_lines_nonempty(d);
        let l = split_lines(d);
        if s.last() != '\n' {
            let last = l.last().push(s.last());
            assert(is_ascii_char(s[s.len() - 1]));
            assert(all_ascii(l[l.len() - 1]));
            assert forall|j: int| 0 <= j < last.len() implies is_ascii_char(#[trigger] last[j]) by {
                if j < last.len() - 1 {
                    assert(last[j] == l[l.len() - 1][j]);
                }
            }
            assert forall|i: int| 0 <= i < split_lines(s).len() implies all_ascii(#[trigger] split_lines(s)[i]) by {
                if i < l.len() - 1 {
                    assert(split_lines(s)[i] == l[i]);
                } else {
                    assert(split_lines(s)[i] == last);
                }
            }
        } else {
            assert forall|i: int| 0 <= i < split_lines(s).len() implies all_ascii(#[trigger] split_lines(s)[i]) by {
                if i < l.len() {
                    assert(split_lines(s)[i] == l[i]);
                } else {
                    assert(split_lines(s)[i] =~= Seq::<char>::empty());
                }
            }
        }
    }
}

/// What an ASCII line assigns is ASCII.
pub proof fn lemma_parse_line_ascii(line: Seq<char>)
    requires
        all_ascii(line),
    ensures
        parse_line(line) matches Some(e) ==> all_ascii(e.1),
{
    let t = trim(line);
    lemma_strip_ascii(line, CharClass::Whitespace);
    if t.len() > 0 && t[0] != '#' && exists|p: int| is_first_index(t, '=', p) {
        let p = choose|p: int| is_first_index(t, '=', p);
        let r = t.skip(p + 1);
        assert forall|i: int| 0 <= i < r.len() implies is_ascii_char(#[trigger] r[i]) by {
            assert(r[i] == t[p + 1 + i]);
        }
        lemma_strip_ascii(r, CharClass::Whitespace);
        lemma_strip_ascii(trim(r), CharClass::Exactly('"'));
        lemma_strip_ascii(strip(trim(r), CharClass::Exactly('"')), CharClass::Exactly('\''));
        lemma_strip_ascii(
            strip(strip(trim(r), CharClass::Exactly('"')), CharClass::Exactly('\'')),
            CharClass::Whitespace,
        );
    }
}

/// The values that ASCII lines assign are ASCII.
pub proof fn lemma_entries_of_ascii(lines: Seq<Seq<char>>)
    requires
        forall|i: int| 0 <= i < lines.len() ==> all_ascii(#[trigger] lines[i]),
    ensures
        forall|j: int| 0 <= j < entries_of(lines).len() ==> all_ascii(#[trigger] entries_of(lines)[j].1),
    decreases lines.len(),
{
    if lines.len() > 0 {
        let d = lines.drop_last();
        assert forall|i: int| 0 <= i < d.len() implies all_ascii(#[trigger] d[i]) by {
            assert(d[i] == lines[i]);
        }
        lemma_entries_of_ascii(d);
        assert(all_ascii(lines[lines.len() - 1]));
        lemma_parse_line_ascii(lines.last());
        let prev = entries_of(d);
        let e = entries_of(lines);
        assert(e == prev + option_seq(parse_line(lines.last())));
        assert forall|j: int| 0 <= j < e.len() implies all_ascii(#[trigger] e[j].1) by {
            if j < prev.len() {
                assert(e[j] == prev[j]);
            } else {
                assert(e[j] == parse_line(lines.last())->0);
            }
        }
    }
}

/// The values of an ASCII theme file are ASCII.
pub proof fn lemma_theme_entries_ascii(content: Seq<char>)
    requires
        all_ascii(content),
    ensures
        forall|j: int| 0 <= j < theme_entries(content).len() ==> all_ascii(
            #[trigger] theme_entries(content)[j].1,
        ),
{
    lemma_split_lines_ascii(content);
    lemma_entries_of_ascii(split_lines(content));
}

/// A value looked up among ASCII values is ASCII.
pub proof fn lemma_lookup_ascii(entries: Seq<(Seq<char>, Seq<char>)>, key: Seq<char>)
    requires
        forall|j: int| 0 <= j < entries.len() ==> all_ascii(#[trigger] entries[j].1),
    ensures
        lookup(entries, key) matches Some(v) ==> all_ascii(v),
    decreases entries.len(),
{
    if entries.len() > 0 {
        let d = entries.drop_last();
        assert forall|j: int| 0 <= j < d.len() implies all_ascii(#[trigger] d[j].1) by {
            assert(d[j] == entries[j]);
        }
        assert(all_ascii(entries[entries.len() - 1].1));
        lemma_lookup_ascii(d, key);
    }
}

/// A value picked among ASCII values, with an ASCII default, is ASCII.
pub proof fn lemma_pick_ascii(entries: Seq<(Seq<char>, Seq<char>)>, keys: Seq<Seq<char>>, default: Seq<
    char,
>)
    requires
        forall|j: int| 0 <= j < entries.len() ==> all_ascii(#[trigger] entries[j].1),
        all_ascii(default),
    ensures
        all_ascii(pick(entries, keys, default)),
    decreases keys.len(),
{
    if keys.len() > 0 {
        lemma_lookup_ascii(entries, keys[0]);
        lemma_pick_ascii(entries, keys.drop_first(), default);
    }
}

/// A key's value is the one of its last assignment: `lookup` finds a value
/// exactly where the key is assigned, and then the value is that of an
/// assignment of the key that no later assignment of it follows.
pub proof fn lemma_lookup_is_last_assignment(entries: Seq<(Seq<char>, Seq<char>)>, key: Seq<char>)
    ensures
        lookup(entries, key) is Some <==> exists|i: int| 0 <= i < entries.len() && #[trigger] entries[i].0
            == key,
        lookup(entries, key) is Some ==> exists|i: int|
            0 <= i < entries.len() && #[trigger] entries[i] == (key, lookup(entries, key)->0) && forall|j: int|
                i < j < entries.len() ==> (#[trigger] entries[j]).0 != key,
    decreases entries.len(),
{
    if entries.len() > 0 {
        let d = entries.drop_last();
        lemma_lookup_is_last_assignment(d, key);
        let n = entries.len() - 1;
        if entries.last().0 == key {
            assert(entries[n] == (key, lookup(entries, key)->0));
        } else {
            if lookup(d, key) is Some {
                let i = choose|i: int|
                    0 <= i < d.len() && #[trigger] d[i] == (key, lookup(d, key)->0) && forall|j: int|
                        i < j < d.len() ==> (#[trigger] d[j]).0 != key;
                assert(entries[i] == d[i]);
                assert forall|j: int| i < j < entries.len() implies (#[trigger] entries[j]).0 != key by {
                    if j < n {
                        assert(entries[j] == d[j]);
                    }
                }
            }
            if exists|i: int| 0 <= i < entries.len() && #[trigger] entries[i].0 == key {
                let i = choose|i: int| 0 <= i < entries.len() && #[trigger] entries[i].0 == key;
                assert(i < n);
                assert(d[i] == entries[i]);
            }
        }
    }
}

} // verus!
