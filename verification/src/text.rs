//! Characters and strings: whitespace, trimming, prefixes, lines and numbers,
//! stated over `Seq<char>` and carried out on `String`.

use vstd::prelude::*;

verus! {

/// The characters with Unicode's `White_Space` property: what `char::is_whitespace`
/// and the `\s` class of the `regex` crate accept.
pub open spec fn is_ws(c: char) -> bool {
    ||| ('\u{9}' <= c && c <= '\u{d}')
    ||| c == ' '
    ||| c == '\u{85}'
    ||| c == '\u{a0}'
    ||| c == '\u{1680}'
    ||| ('\u{2000}' <= c && c <= '\u{200a}')
    ||| c == '\u{2028}'
    ||| c == '\u{2029}'
    ||| c == '\u{202f}'
    ||| c == '\u{205f}'
    ||| c == '\u{3000}'
}

pub fn is_whitespace(c: char) -> (r: bool)
    ensures
        r == is_ws(c),
{
    ('\u{9}' <= c && c <= '\u{d}') || c == ' ' || c == '\u{85}' || c == '\u{a0}' || c == '\u{1680}'
        || ('\u{2000}' <= c && c <= '\u{200a}') || c == '\u{2028}' || c == '\u{2029}' || c
        == '\u{202f}' || c == '\u{205f}' || c == '\u{3000}'
}

/// The text without its leading whitespace.
pub open spec fn trim_start(s: Seq<char>) -> Seq<char>
    decreases s.len(),
{
    if s.len() > 0 && is_ws(s[0]) {
        trim_start(s.drop_first())
    } else {
        s
    }
}

/// The text without its trailing whitespace.
pub open spec fn trim_end(s: Seq<char>) -> Seq<char>
    decreases s.len(),
{
    if s.len() > 0 && is_ws(s.last()) {
        trim_end(s.drop_last())
    } else {
        s
    }
}

/// The text without leading and trailing whitespace, as `str::trim` gives it.
pub open spec fn trim(s: Seq<char>) -> Seq<char> {
    trim_end(trim_start(s))
}

/// `s` begins with `p`.
pub open spec fn starts_with(s: Seq<char>, p: Seq<char>) -> bool {
    p.len() <= s.len() && s.subrange(0, p.len() as int) == p
}

/// `s` with `p` taken off its front as often as it is there, as
/// `str::trim_start_matches` does for a non-empty `p`.
pub open spec fn strip_all_prefixes(s: Seq<char>, p: Seq<char>) -> Seq<char>
    decreases s.len(),
{
    if p.len() > 0 && starts_with(s, p) {
        strip_all_prefixes(s.subrange(p.len() as int, s.len() as int), p)
    } else {
        s
    }
}

/// The pieces of `s` between its `'\n'` characters (one more piece than there are
/// line breaks).
pub open spec fn split_lines(s: Seq<char>) -> Seq<Seq<char>>
    decreases s.len(),
{
    if s.len() == 0 {
        seq![Seq::<char>::empty()]
    } else {
        let rest = split_lines(s.drop_first());
        if s[0] == '\n' {
            seq![Seq::<char>::empty()] + rest
        } else {
            rest.update(0, seq![s[0]] + rest[0])
        }
    }
}

/// The lines joined with `'\n'` between them, as `[String]::join("\n")` gives them.
pub open spec fn join_lines(lines: Seq<Seq<char>>) -> Seq<char>
    decreases lines.len(),
{
    if lines.len() == 0 {
        Seq::empty()
    } else if lines.len() == 1 {
        lines[0]
    } else {
        join_lines(lines.drop_last()) + seq!['\n'] + lines.last()
    }
}

/// `n` in decimal, without padding.
pub open spec fn decimal(n: nat) -> Seq<char>
    decreases n,
{
    if n < 10 {
        seq![crate::date::digit_char(n as int)]
    } else {
        decimal(n / 10) + seq![crate::date::digit_char((n % 10) as int)]
    }
}

/// `n` in decimal, right-aligned to `width` characters with spaces, as
/// `format!("{:>width$}", n)` writes it.
pub open spec fn right_aligned(n: nat, width: nat) -> Seq<char> {
    let d = decimal(n);
    if d.len() >= width {
        d
    } else {
        Seq::new((width - d.len()) as nat, |i: int| ' ') + d
    }
}

/// Appends one character to a string, with `String::push`.
#[verifier::external_body]
pub(crate) fn push_char(s: &mut String, c: char)
    ensures
        final(s)@ == old(s)@.push(c),
{
    s.push(c);
}

/// Appends a string slice.
pub fn push_str(s: &mut String, t: &str)
    ensures
        final(s)@ == old(s)@ + t@,
{
    s.append(t);
}

/// The characters of a string slice, in order.
pub fn chars_of(s: &str) -> (v: Vec<char>)
    ensures
        v@ == s@,
{
    let mut v: Vec<char> = Vec::new();
    for c in it: s.chars()
        invariant
            it.seq() == s@,
            v@ == it.seq().take(it.index() as int),
    {
        v.push(c);
    }
    v
}

/// A string made of the characters `cs[from..to]`.
pub fn string_of(cs: &Vec<char>, from: usize, to: usize) -> (s: String)
    requires
        from <= to <= cs.len(),
    ensures
        s@ == cs@.subrange(from as int, to as int),
{
    let mut s = String::new();
    let mut i = from;
    while i < to
        invariant
            from <= i <= to <= cs.len(),
            s@ == cs@.subrange(from as int, i as int),
        decreases to - i,
    {
        push_char(&mut s, cs[i]);
        i += 1;
    }
    s
}


/// The decimal digit `d` as a character.
pub fn digit(d: usize) -> (c: char)
    requires
        d < 10,
    ensures
        c == crate::date::digit_char(d as int),
{
    if d == 0 { '0' }
    else if d == 1 { '1' }
    else if d == 2 { '2' }
    else if d == 3 { '3' }
    else if d == 4 { '4' }
    else if d == 5 { '5' }
    else if d == 6 { '6' }
    else if d == 7 { '7' }
    else if d == 8 { '8' }
    else { '9' }
}

/// `n` in decimal.
pub fn decimal_string(n: usize) -> (r: String)
    ensures
        r@ == decimal(n as nat),
    decreases n,
{
    if n < 10 {
        let mut r = String::new();
        push_char(&mut r, digit(n));
        assert(r@ =~= decimal(n as nat));
        r
    } else {
        let mut r = decimal_string(n / 10);
        push_char(&mut r, digit(n % 10));
        r
    }
}

/// `n` in decimal, right-aligned with spaces to `width` characters.
pub fn right_aligned_string(n: usize, width: usize) -> (r: String)
    ensures
        r@ == right_aligned(n as nat, width as nat),
{
    let d = decimal_string(n);
    let dlen = chars_of(d.as_str()).len();
    if dlen >= width {
        d
    } else {
        let mut r = String::new();
        let mut i: usize = 0;
        while i < width - dlen
            invariant
                dlen == d@.len(),
                dlen < width,
                i <= width - dlen,
                r@ == Seq::new(i as nat, |k: int| ' '),
            decreases width - dlen - i,
        {
            push_char(&mut r, ' ');
            i += 1;
            assert(r@ =~= Seq::new(i as nat, |k: int| ' '));
        }
        push_str(&mut r, d.as_str());
        r
    }
}


/// The first place at or after `from` where `c` stands in `s`; `s.len()` if none.
pub open spec fn find_from(s: Seq<char>, c: char, from: int) -> int
    decreases s.len() - from,
{
    if from >= s.len() {
        s.len() as int
    } else if s[from] == c {
        from
    } else {
        find_from(s, c, from + 1)
    }
}

/// How many whitespace characters follow one another from `from` on.
pub open spec fn ws_run(s: Seq<char>, from: int) -> int
    decreases s.len() - from,
{
    if 0 <= from < s.len() && is_ws(s[from]) {
        1 + ws_run(s, from + 1)
    } else {
        0
    }
}

/// The characters `v[from..to]` as a vector of their own.
pub fn sub_vec(v: &Vec<char>, from: usize, to: usize) -> (r: Vec<char>)
    requires
        from <= to <= v.len(),
    ensures
        r@ == v@.subrange(from as int, to as int),
{
    let mut r: Vec<char> = Vec::new();
    let mut i = from;
    while i < to
        invariant
            from <= i <= to <= v.len(),
            r@ == v@.subrange(from as int, i as int),
        decreases to - i,
    {
        r.push(v[i]);
        i += 1;
    }
    r
}

proof fn lemma_trim_start_skip(s: Seq<char>, i: int)
    requires
        0 <= i <= s.len(),
        forall|k: int| 0 <= k < i ==> is_ws(#[trigger] s[k]),
    ensures
        trim_start(s) == trim_start(s.subrange(i, s.len() as int)),
    decreases i,
{
    if i > 0 {
        assert(s.drop_first().subrange(i - 1, s.drop_first().len() as int) =~= s.subrange(i, s.len() as int));
        lemma_trim_start_skip(s.drop_first(), i - 1);
    } else {
        assert(s.subrange(0, s.len() as int) =~= s);
    }
}

proof fn lemma_trim_end_take(s: Seq<char>, j: int)
    requires
        0 <= j <= s.len(),
        forall|k: int| j <= k < s.len() ==> is_ws(#[trigger] s[k]),
    ensures
        trim_end(s) == trim_end(s.subrange(0, j)),
    decreases s.len() - j,
{
    if j < s.len() {
        assert(s.drop_last().subrange(0, j) =~= s.subrange(0, j));
        lemma_trim_end_take(s.drop_last(), j);
    } else {
        assert(s.subrange(0, j) =~= s);
    }
}

/// The characters without leading and trailing whitespace (`str::trim`).
pub fn trim_vec(v: &Vec<char>) -> (r: Vec<char>)
    ensures
        r@ == trim(v@),
{
    let mut a: usize = 0;
    while a < v.len() && is_whitespace(v[a])
        invariant
            a <= v.len(),
            forall|k: int| 0 <= k < a ==> is_ws(#[trigger] v@[k]),
        decreases v.len() - a,
    {
        a += 1;
    }
    let ghost s1 = v@.subrange(a as int, v.len() as int);
    proof {
        lemma_trim_start_skip(v@, a as int);
        if a < v.len() {
            assert(s1[0] == v@[a as int]);
        }
        assert(trim_start(s1) == s1);
    }
    let mut b: usize = v.len();
    while b > a && is_whitespace(v[b - 1])
        invariant
            a <= b <= v.len(),
            forall|k: int| b <= k < v.len() ==> is_ws(#[trigger] v@[k]),
        decreases b,
    {
        b -= 1;
    }
    proof {
        assert forall|k: int| (b - a) <= k < s1.len() implies is_ws(#[trigger] s1[k]) by {
            assert(s1[k] == v@[a + k]);
        }
        lemma_trim_end_take(s1, (b - a) as int);
        let s2 = s1.subrange(0, (b - a) as int);
        assert(s2 =~= v@.subrange(a as int, b as int));
        if b > a {
            assert(s2.last() == v@[b - 1]);
        }
        assert(trim_end(s2) == s2);
    }
    sub_vec(v, a, b)
}

/// `v` begins with `p`.
pub fn starts_with_vec(v: &Vec<char>, p: &Vec<char>) -> (r: bool)
    ensures
        r == starts_with(v@, p@),
{
    if p.len() > v.len() {
        return false;
    }
    let mut i: usize = 0;
    while i < p.len()
        invariant
            p.len() <= v.len(),
            i <= p.len(),
            forall|k: int| 0 <= k < i ==> v@[k] == p@[k],
        decreases p.len() - i,
    {
        if v[i] != p[i] {
            assert(v@.subrange(0, p.len() as int)[i as int] != p@[i as int]);
            return false;
        }
        i += 1;
    }
    assert(v@.subrange(0, p.len() as int) =~= p@);
    true
}

/// `v` with every leading copy of `p` taken off (`str::trim_start_matches`).
pub fn strip_prefixes_vec(v: &Vec<char>, p: &Vec<char>) -> (r: Vec<char>)
    requires
        p.len() > 0,
    ensures
        r@ == strip_all_prefixes(v@, p@),
{
    let mut cur = sub_vec(v, 0, v.len());
    assert(v@.subrange(0, v.len() as int) =~= v@);
    while starts_with_vec(&cur, p)
        invariant
            p.len() > 0,
            strip_all_prefixes(cur@, p@) == strip_all_prefixes(v@, p@),
        decreases cur.len(),
    {
        cur = sub_vec(&cur, p.len(), cur.len());
    }
    cur
}

/// The first place at or after `from` where `c` stands in `v`; `v.len()` if none.
pub fn find_from_vec(v: &Vec<char>, c: char, from: usize) -> (r: usize)
    requires
        from <= v.len(),
    ensures
        r == find_from(v@, c, from as int),
{
    let mut i = from;
    while i < v.len() && v[i] != c
        invariant
            from <= i <= v.len(),
            find_from(v@, c, from as int) == find_from(v@, c, i as int),
        decreases v.len() - i,
    {
        i += 1;
    }
    i
}

/// How many whitespace characters follow one another from `from` on.
pub fn ws_run_vec(v: &Vec<char>, from: usize) -> (r: usize)
    requires
        from <= v.len(),
    ensures
        r == ws_run(v@, from as int),
        from + r <= v.len(),
{
    let mut i = from;
    while i < v.len() && is_whitespace(v[i])
        invariant
            from <= i <= v.len(),
            ws_run(v@, from as int) == (i - from) + ws_run(v@, i as int),
        decreases v.len() - i,
    {
        i += 1;
    }
    i - from
}


/// `c` does not stand in `s`.
pub open spec fn lacks(s: Seq<char>, c: char) -> bool {
    forall|i: int| 0 <= i < s.len() ==> #[trigger] s[i] != c
}

/// A text without line breaks is one line.
pub proof fn lemma_split_one(s: Seq<char>)
    requires
        lacks(s, '\n'),
    ensures
        split_lines(s) == seq![s],
    decreases s.len(),
{
    if s.len() == 0 {
        assert(s =~= Seq::<char>::empty());
    } else {
        let d = s.drop_first();
        assert forall|i: int| 0 <= i < d.len() implies #[trigger] d[i] != '\n' by {
            assert(d[i] == s[i + 1]);
        }
        lemma_split_one(d);
        assert(seq![s[0]] + d =~= s);
        assert(split_lines(s) =~= seq![s]);
    }
}

/// Splitting at a line break splits the lines of the two sides apart.
pub proof fn lemma_split_concat(a: Seq<char>, b: Seq<char>)
    ensures
        split_lines(a + seq!['\n'] + b) == split_lines(a) + split_lines(b),
    decreases a.len(),
{
    let s = a + seq!['\n'] + b;
    if a.len() == 0 {
        assert(s.drop_first() =~= b);
        assert(a =~= Seq::<char>::empty());
        assert(split_lines(a) =~= seq![Seq::<char>::empty()]);
        assert(split_lines(s) =~= split_lines(a) + split_lines(b));
    } else {
        let a2 = a.drop_first();
        assert(s.drop_first() =~= a2 + seq!['\n'] + b);
        lemma_split_concat(a2, b);
        lemma_split_nonempty(a2);
        if a[0] == '\n' {
            assert(split_lines(s) =~= split_lines(a) + split_lines(b));
        } else {
            assert(split_lines(s) =~= split_lines(a) + split_lines(b));
        }
    }
}

/// A text has at most one line more than it has characters.
pub proof fn lemma_split_len(s: Seq<char>)
    ensures
        split_lines(s).len() <= s.len() + 1,
    decreases s.len(),
{
    if s.len() > 0 {
        lemma_split_len(s.drop_first());
        lemma_split_nonempty(s.drop_first());
    }
}

/// Every text has at least one line.
pub proof fn lemma_split_nonempty(s: Seq<char>)
    ensures
        split_lines(s).len() >= 1,
    decreases s.len(),
{
    if s.len() > 0 {
        lemma_split_nonempty(s.drop_first());
    }
}

/// Law: lines without line breaks, joined with `'\n'` and split at `'\n'`, come back.
pub proof fn lemma_split_join(lines: Seq<Seq<char>>)
    requires
        lines.len() >= 1,
        forall|i: int| 0 <= i < lines.len() ==> lacks(#[trigger] lines[i], '\n'),
    ensures
        split_lines(join_lines(lines)) == lines,
    decreases lines.len(),
{
    if lines.len() == 1 {
        lemma_split_one(lines[0]);
        assert(seq![lines[0]] =~= lines);
    } else {
        let init = lines.drop_last();
        assert forall|i: int| 0 <= i < init.len() implies lacks(#[trigger] init[i], '\n') by {
            assert(init[i] == lines[i]);
        }
        lemma_split_join(init);
        lemma_split_concat(join_lines(init), lines.last());
        lemma_split_one(lines.last());
        assert(init + seq![lines.last()] =~= lines);
    }
}

/// A text whose ends are not whitespace is its own trim.
pub proof fn lemma_trim_plain(s: Seq<char>)
    requires
        s.len() > 0,
        !is_ws(s[0]),
        !is_ws(s.last()),
    ensures
        trim(s) == s,
{
}

/// A text that does not start with `p` is left as it is.
pub proof fn lemma_strip_none(s: Seq<char>, p: Seq<char>)
    requires
        !starts_with(s, p),
    ensures
        strip_all_prefixes(s, p) == s,
{
}

/// `p` in front is taken off, and then the rest is stripped.
pub proof fn lemma_strip_one(p: Seq<char>, s: Seq<char>)
    requires
        p.len() > 0,
    ensures
        strip_all_prefixes(p + s, p) == strip_all_prefixes(s, p),
{
    let t = p + s;
    assert(t.subrange(0, p.len() as int) =~= p);
    assert(t.subrange(p.len() as int, t.len() as int) =~= s);
}

} // verus!
