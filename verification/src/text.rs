//! Character-level building blocks shared by every parser and writer in
//! the crate: the mathematical meaning of splitting, trimming, joining and
//! number formatting, and executable versions proved against it.

use vstd::prelude::*;

verus! {

broadcast use vstd::string::group_string_axioms;

// ---------------------------------------------------------------------------
// Meaning
// ---------------------------------------------------------------------------

/// Unicode `White_Space`, which is what `str::trim` strips.
pub open spec fn is_ws(c: char) -> bool {
    ||| c == ' '
    ||| c == '\t'
    ||| c == '\n'
    ||| c == '\r'
    ||| c == '\x0B'
    ||| c == '\x0C'
    ||| c == '\u{85}'
    ||| c == '\u{A0}'
    ||| c == '\u{1680}'
    ||| ('\u{2000}' <= c && c <= '\u{200A}')
    ||| c == '\u{2028}'
    ||| c == '\u{2029}'
    ||| c == '\u{202F}'
    ||| c == '\u{205F}'
    ||| c == '\u{3000}'
}

pub open spec fn trim_start(s: Seq<char>) -> Seq<char>
    decreases s.len(),
{
    if s.len() > 0 && is_ws(s[0]) {
        trim_start(s.drop_first())
    } else {
        s
    }
}

pub open spec fn trim_end(s: Seq<char>) -> Seq<char>
    decreases s.len(),
{
    if s.len() > 0 && is_ws(s.last()) {
        trim_end(s.drop_last())
    } else {
        s
    }
}

/// Both ends stripped of whitespace.
pub open spec fn trim(s: Seq<char>) -> Seq<char> {
    trim_end(trim_start(s))
}

/// Position of the first `c` in `s`, or -1.
pub open spec fn find(s: Seq<char>, c: char) -> int
    decreases s.len(),
{
    if s.len() == 0 {
        -1
    } else if s[0] == c {
        0
    } else {
        let rest = find(s.drop_first(), c);
        if rest < 0 {
            -1
        } else {
            rest + 1
        }
    }
}

/// The pieces between occurrences of `c`, as `str::split` gives them: at
/// least one piece, empty ones included.
pub open spec fn split(s: Seq<char>, c: char) -> Seq<Seq<char>>
    decreases s.len(),
{
    let i = find(s, c);
    if i < 0 || i >= s.len() {
        seq![s]
    } else {
        seq![s.take(i)] + split(s.skip(i + 1), c)
    }
}

/// `parts` with `sep` between each neighbouring pair.
pub open spec fn join(parts: Seq<Seq<char>>, sep: Seq<char>) -> Seq<char>
    decreases parts.len(),
{
    if parts.len() == 0 {
        Seq::empty()
    } else if parts.len() == 1 {
        parts[0]
    } else {
        parts[0] + sep + join(parts.drop_first(), sep)
    }
}

/// A piece with one trailing carriage return taken off, if it has one.
pub open spec fn strip_cr(s: Seq<char>) -> Seq<char> {
    if s.len() > 0 && s.last() == '\r' {
        s.drop_last()
    } else {
        s
    }
}

/// `str::lines`: pieces ended by `\n` or `\r\n`, where the last piece is
/// dropped when the text ends with its line ending (or is empty) and keeps
/// any bare `\r` it ends with.
pub open spec fn lines(s: Seq<char>) -> Seq<Seq<char>> {
    let p = split(s, '\n');
    let body = p.drop_last().map_values(|x: Seq<char>| strip_cr(x));
    if p.last().len() == 0 {
        body
    } else {
        body.push(p.last())
    }
}

pub open spec fn lower_char(c: char) -> char {
    if 'A' <= c && c <= 'Z' {
        ((c as u32) + 32) as char
    } else {
        c
    }
}

/// `to_ascii_lowercase`.
pub open spec fn lower(s: Seq<char>) -> Seq<char> {
    s.map_values(|c: char| lower_char(c))
}

pub open spec fn starts_with(s: Seq<char>, p: Seq<char>) -> bool {
    p.len() <= s.len() && s.take(p.len() as int) == p
}

pub open spec fn ends_with(s: Seq<char>, p: Seq<char>) -> bool {
    p.len() <= s.len() && s.skip(s.len() - p.len()) == p
}

/// Whether `t` occurs in `s` as a contiguous run.
pub open spec fn has_sub(s: Seq<char>, t: Seq<char>) -> bool {
    exists|i: int| 0 <= i && i + t.len() <= s.len() && #[trigger] s.subrange(i, i + t.len()) == t
}

pub open spec fn is_digit(c: char) -> bool {
    '0' <= c && c <= '9'
}

pub open spec fn digit_value(c: char) -> nat {
    ((c as u32) - ('0' as u32)) as nat
}

pub open spec fn digit_char(d: nat) -> char {
    ((d + 48) as u32) as char
}

pub open spec fn all_digits(s: Seq<char>) -> bool {
    forall|i: int| 0 <= i < s.len() ==> is_digit(#[trigger] s[i])
}

/// The number a run of decimal digits spells.
pub open spec fn digits_value(s: Seq<char>) -> nat
    decreases s.len(),
{
    if s.len() == 0 {
        0
    } else {
        digits_value(s.drop_last()) * 10 + digit_value(s.last())
    }
}

/// What `str::parse` gives for an unsigned integer type whose largest value
/// is `max`: an optional `+`, then at least one digit, and nothing else.
pub open spec fn parse_unsigned(s: Seq<char>, max: nat) -> Option<nat> {
    let t = if s.len() > 0 && s[0] == '+' {
        s.drop_first()
    } else {
        s
    };
    if t.len() == 0 || !all_digits(t) || digits_value(t) > max {
        None
    } else {
        Some(digits_value(t))
    }
}

/// `n` written in decimal, without leading zeros.
pub open spec fn decimal(n: nat) -> Seq<char>
    decreases n,
{
    if n < 10 {
        seq![digit_char(n)]
    } else {
        decimal(n / 10).push(digit_char(n % 10))
    }
}

pub open spec fn hex_char(d: nat) -> char {
    if d < 10 {
        digit_char(d)
    } else {
        ((d - 10 + 97) as u32) as char
    }
}

/// `n` as lowercase hexadecimal, at least `width` digits, zero-padded.
pub open spec fn hex(n: nat, width: nat) -> Seq<char>
    decreases width, n,
{
    if n < 16 && width <= 1 {
        seq![hex_char(n)]
    } else {
        hex(n / 16, if width > 0 { (width - 1) as nat } else { 0 }).push(hex_char(n % 16))
    }
}

// ---------------------------------------------------------------------------
// Facts
// ---------------------------------------------------------------------------

pub proof fn lemma_digit_char(d: nat)
    requires
        d < 10,
    ensures
        is_digit(digit_char(d)),
        digit_value(digit_char(d)) == d,
{
}

/// The views of a list of character vectors.
pub open spec fn views(v: Seq<Vec<char>>) -> Seq<Seq<char>> {
    v.map_values(|x: Vec<char>| x@)
}

pub proof fn lemma_find_absent(s: Seq<char>, c: char)
    requires
        !s.contains(c),
    ensures
        find(s, c) == -1,
    decreases s.len(),
{
    if s.len() > 0 {
        assert(s[0] != c);
        assert forall|i: int| 0 <= i < s.drop_first().len() implies s.drop_first()[i] != c by {
            assert(s.drop_first()[i] == s[i + 1]);
        }
        lemma_find_absent(s.drop_first(), c);
    }
}

pub proof fn lemma_find_after(a: Seq<char>, c: char, rest: Seq<char>)
    requires
        !a.contains(c),
    ensures
        find(a + seq![c] + rest, c) == a.len(),
    decreases a.len(),
{
    let s = a + seq![c] + rest;
    if a.len() == 0 {
        assert(s[0] == c);
    } else {
        assert(s[0] == a[0]);
        assert(a[0] != c);
        assert(s.drop_first() =~= a.drop_first() + seq![c] + rest);
        assert forall|i: int| 0 <= i < a.drop_first().len() implies a.drop_first()[i] != c by {
            assert(a.drop_first()[i] == a[i + 1]);
        }
        lemma_find_after(a.drop_first(), c, rest);
    }
}

pub proof fn lemma_find_bounds(s: Seq<char>, c: char)
    ensures
        -1 <= find(s, c) < s.len(),
        find(s, c) >= 0 ==> s[find(s, c)] == c,
        forall|j: int| 0 <= j < find(s, c) ==> s[j] != c,
        find(s, c) < 0 ==> !s.contains(c),
    decreases s.len(),
{
    if s.len() > 0 && s[0] != c {
        lemma_find_bounds(s.drop_first(), c);
        let r = find(s.drop_first(), c);
        assert forall|j: int| 0 <= j < find(s, c) implies s[j] != c by {
            if j > 0 {
                assert(s[j] == s.drop_first()[j - 1]);
            }
        }
        if r < 0 {
            assert forall|j: int| 0 <= j < s.len() implies s[j] != c by {
                if j > 0 {
                    assert(s[j] == s.drop_first()[j - 1]);
                }
            }
        } else {
            assert(s[r + 1] == s.drop_first()[r]);
        }
    }
}

/// A piece with no separator in it is split into just itself.
pub proof fn lemma_split_absent(s: Seq<char>, c: char)
    requires
        !s.contains(c),
    ensures
        split(s, c) == seq![s],
{
    lemma_find_absent(s, c);
}

/// Splitting a piece, a separator and the rest.
pub proof fn lemma_split_step(a: Seq<char>, c: char, rest: Seq<char>)
    requires
        !a.contains(c),
    ensures
        split(a + seq![c] + rest, c) == seq![a] + split(rest, c),
{
    let s = a + seq![c] + rest;
    lemma_find_after(a, c, rest);
    assert(s.take(a.len() as int) =~= a);
    assert(s.skip(a.len() as int + 1) =~= rest);
}

/// Splitting undoes joining, as long as no piece holds the separator.
pub proof fn lemma_split_join(parts: Seq<Seq<char>>, c: char)
    requires
        parts.len() >= 1,
        forall|i: int| 0 <= i < parts.len() ==> !(#[trigger] parts[i]).contains(c),
    ensures
        split(join(parts, seq![c]), c) == parts,
    decreases parts.len(),
{
    if parts.len() == 1 {
        lemma_split_absent(parts[0], c);
        assert(seq![parts[0]] =~= parts);
    } else {
        let rest = parts.drop_first();
        assert forall|i: int| 0 <= i < rest.len() implies !(#[trigger] rest[i]).contains(c) by {
            assert(rest[i] == parts[i + 1]);
        }
        lemma_split_join(rest, c);
        lemma_split_step(parts[0], c, join(rest, seq![c]));
        assert(seq![parts[0]] + rest =~= parts);
    }
}

pub proof fn lemma_split_len(s: Seq<char>, c: char)
    ensures
        split(s, c).len() >= 1,
    decreases s.len(),
{
    let i = find(s, c);
    if !(i < 0 || i >= s.len()) {
        lemma_split_len(s.skip(i + 1), c);
    }
}

/// Every piece of a split is free of the separator.
pub proof fn lemma_split_pieces(s: Seq<char>, c: char)
    ensures
        forall|k: int| 0 <= k < split(s, c).len() ==> !(#[trigger] split(s, c)[k]).contains(c),
    decreases s.len(),
{
    lemma_find_bounds(s, c);
    let i = find(s, c);
    if i < 0 || i >= s.len() {
    } else {
        lemma_split_pieces(s.skip(i + 1), c);
        let p = split(s, c);
        assert forall|k: int| 0 <= k < p.len() implies !(#[trigger] p[k]).contains(c) by {
            if k == 0 {
                assert(p[0] == s.take(i));
                assert forall|j: int| 0 <= j < s.take(i).len() implies s.take(i)[j] != c by {
                    assert(s.take(i)[j] == s[j]);
                }
            } else {
                assert(p[k] == split(s.skip(i + 1), c)[k - 1]);
            }
        }
    }
}

pub proof fn lemma_trim_start_keeps_nonspace(s: Seq<char>)
    requires
        s.len() == 0 || !is_ws(s[0]),
    ensures
        trim_start(s) == s,
{
}

pub proof fn lemma_trim_end_keeps_nonspace(s: Seq<char>)
    requires
        s.len() == 0 || !is_ws(s.last()),
    ensures
        trim_end(s) == s,
{
}

pub proof fn lemma_decimal_len(n: nat)
    ensures
        decimal(n).len() >= 1,
        all_digits(decimal(n)),
        digits_value(decimal(n)) == n,
    decreases n,
{
    lemma_digit_char(n % 10);
    if n < 10 {
        assert(decimal(n).drop_last() =~= Seq::<char>::empty());
        assert(digits_value(Seq::<char>::empty()) == 0);
        assert(digits_value(decimal(n)) == digits_value(decimal(n).drop_last()) * 10 + digit_value(decimal(n).last()));
    } else {
        lemma_decimal_len(n / 10);
        let d = decimal(n);
        assert(d.drop_last() =~= decimal(n / 10));
        assert(d.last() == digit_char(n % 10));
        assert forall|i: int| 0 <= i < d.len() implies is_digit(#[trigger] d[i]) by {
            if i < d.len() - 1 {
                assert(d[i] == decimal(n / 10)[i]);
            }
        }
    }
}

// ---------------------------------------------------------------------------
// Executable pieces
// ---------------------------------------------------------------------------

/// Turn a string into its characters.
pub fn chars_of(s: &str) -> (v: Vec<char>)
    ensures
        v@ == s@,
{
    let mut v: Vec<char> = Vec::new();
    for c in it: s.chars()
        invariant
            v@ == s@.take(it.index()),
            it.seq() == s@,
    {
        v.push(c);
    }
    v
}

/// `String::push`.
#[verifier::external_body]
pub(crate) fn push_char(s: &mut String, c: char)
    ensures
        final(s)@ == old(s)@.push(c),
{
    s.push(c);
}

/// Append characters to a string.
pub fn push_chars(s: &mut String, v: &[char])
    ensures
        final(s)@ == old(s)@ + v@,
{
    let ghost start = s@;
    let mut i: usize = 0;
    while i < v.len()
        invariant
            i <= v@.len(),
            s@ == start + v@.take(i as int),
        decreases v@.len() - i,
    {
        push_char(s, v[i]);
        i = i + 1;
        assert(v@.take(i as int) =~= v@.take(i - 1).push(v@[i - 1]));
    }
    assert(v@.take(i as int) =~= v@);
}

/// A string holding exactly these characters.
pub fn string_of(v: &[char]) -> (s: String)
    ensures
        s@ == v@,
{
    let mut s = String::new();
    push_chars(&mut s, v);
    s
}

/// Append a string slice.
pub fn push_str(s: &mut String, t: &str)
    ensures
        final(s)@ == old(s)@ + t@,
{
    let v = chars_of(t);
    push_chars(s, v.as_slice());
}

/// `v[lo..hi]` as its own vector.
pub fn slice_of(v: &[char], lo: usize, hi: usize) -> (r: Vec<char>)
    requires
        lo <= hi <= v@.len(),
    ensures
        r@ == v@.subrange(lo as int, hi as int),
{
    let mut r: Vec<char> = Vec::new();
    let mut i = lo;
    while i < hi
        invariant
            lo <= i <= hi <= v@.len(),
            r@ == v@.subrange(lo as int, i as int),
        decreases hi - i,
    {
        r.push(v[i]);
        i = i + 1;
        assert(r@ =~= v@.subrange(lo as int, i as int));
    }
    r
}

pub fn is_whitespace(c: char) -> (b: bool)
    ensures
        b == is_ws(c),
{
    c == ' ' || c == '\t' || c == '\n' || c == '\r' || c == '\x0B' || c == '\x0C' || c
        == '\u{85}' || c == '\u{A0}' || c == '\u{1680}' || ('\u{2000}' <= c && c <= '\u{200A}')
        || c == '\u{2028}' || c == '\u{2029}' || c == '\u{202F}' || c == '\u{205F}' || c
        == '\u{3000}'
}

/// Where `trim` keeps from and to.
pub fn trim_bounds(v: &[char]) -> (r: (usize, usize))
    ensures
        r.0 <= r.1 <= v@.len(),
        v@.subrange(r.0 as int, r.1 as int) == trim(v@),
        trim_start(v@) == v@.skip(r.0 as int),
{
    let mut lo: usize = 0;
    assert(v@.skip(0) =~= v@);
    while lo < v.len() && is_whitespace(v[lo])
        invariant
            lo <= v@.len(),
            trim_start(v@) == trim_start(v@.skip(lo as int)),
        decreases v@.len() - lo,
    {
        assert(v@.skip(lo as int).drop_first() =~= v@.skip(lo + 1));
        lo = lo + 1;
    }
    let ghost t = v@.skip(lo as int);
    assert(trim_start(t) == t);
    let mut hi: usize = v.len();
    while hi > lo && is_whitespace(v[hi - 1])
        invariant
            lo <= hi <= v@.len(),
            trim(v@) == trim_end(v@.subrange(lo as int, hi as int)),
        decreases hi,
    {
        assert(v@.subrange(lo as int, hi as int).drop_last() =~= v@.subrange(
            lo as int,
            hi - 1,
        ));
        hi = hi - 1;
    }
    assert(v@.subrange(lo as int, v@.len() as int) =~= t);
    (lo, hi)
}

/// `str::trim` on characters.
pub fn trim_vec(v: &[char]) -> (r: Vec<char>)
    ensures
        r@ == trim(v@),
{
    let (lo, hi) = trim_bounds(v);
    slice_of(v, lo, hi)
}

/// `str::split` on characters.
pub fn split_vec(v: &[char], c: char) -> (r: Vec<Vec<char>>)
    ensures
        views(r@) == split(v@, c),
        r@.len() >= 1,
{
    let mut out: Vec<Vec<char>> = Vec::new();
    let mut cur: Vec<char> = Vec::new();
    let mut i: usize = 0;
    assert(cur@ + v@.skip(0) =~= v@);
    assert(views(out@) =~= Seq::<Seq<char>>::empty());
    while i < v.len()
        invariant
            i <= v@.len(),
            !cur@.contains(c),
            split(v@, c) == views(out@) + split(cur@ + v@.skip(i as int), c),
        decreases v@.len() - i,
    {
        let x = v[i];
        if x == c {
            proof {
                assert(cur@ + v@.skip(i as int) =~= cur@ + seq![c] + v@.skip(i + 1));
                lemma_split_step(cur@, c, v@.skip(i + 1));
            }
            let ghost old_out = out@;
            out.push(cur);
            proof {
                assert(views(out@) =~= views(old_out).push(cur@));
            }
            cur = Vec::new();
            proof {
                assert(cur@ + v@.skip(i + 1) =~= v@.skip(i + 1));
            }
        } else {
            proof {
                assert(cur@ + v@.skip(i as int) =~= cur@.push(x) + v@.skip(i + 1));
            }
            cur.push(x);
        }
        i = i + 1;
    }
    proof {
        assert(cur@ + v@.skip(i as int) =~= cur@);
        lemma_split_absent(cur@, c);
    }
    let ghost old_out = out@;
    out.push(cur);
    proof {
        assert(views(out@) =~= views(old_out).push(cur@));
    }
    out
}

/// `str::split_once` on one character: what comes before its first
/// occurrence, and what comes after.
pub open spec fn split_once(s: Seq<char>, c: char) -> Option<(Seq<char>, Seq<char>)> {
    let i = find(s, c);
    if i < 0 {
        None
    } else {
        Some((s.take(i), s.skip(i + 1)))
    }
}

/// Where `c` first occurs, if it does.
pub fn find_vec(v: &[char], c: char) -> (r: Option<usize>)
    ensures
        match r {
            Some(i) => find(v@, c) == i,
            None => find(v@, c) < 0,
        },
{
    proof {
        lemma_find_bounds(v@, c);
    }
    let mut i: usize = 0;
    while i < v.len()
        invariant
            i <= v@.len(),
            forall|j: int| 0 <= j < i ==> v@[j] != c,
            -1 <= find(v@, c) < v@.len(),
            find(v@, c) >= 0 ==> v@[find(v@, c)] == c,
            forall|j: int| 0 <= j < find(v@, c) ==> v@[j] != c,
            find(v@, c) < 0 ==> !v@.contains(c),
        decreases v@.len() - i,
    {
        if v[i] == c {
            assert(v@.contains(c));
            return Some(i);
        }
        i = i + 1;
    }
    proof {
        if find(v@, c) >= 0 {
            assert(v@[find(v@, c)] == c);
        }
    }
    None
}

/// `str::split_once` on one character.
pub fn split_once_vec(v: &[char], c: char) -> (r: Option<(Vec<char>, Vec<char>)>)
    ensures
        match r {
            Some((a, b)) => split_once(v@, c) == Some((a@, b@)),
            None => split_once(v@, c) is None,
        },
{
    proof {
        lemma_find_bounds(v@, c);
    }
    match find_vec(v, c) {
        None => None,
        Some(i) => {
            let n = v.len();
            assert(i < n);
            let a = slice_of(v, 0, i);
            let b = slice_of(v, i + 1, n);
            assert(a@ =~= v@.take(i as int));
            assert(b@ =~= v@.skip(i + 1));
            Some((a, b))
        },
    }
}

/// Whether two strings hold the same characters.
pub fn same_string(a: &String, b: &String) -> (r: bool)
    ensures
        r == (a@ == b@),
{
    let x = chars_of(a.as_str());
    let y = chars_of(b.as_str());
    same(x.as_slice(), y.as_slice())
}

/// Whether a character occurs.
pub fn contains_char(v: &[char], c: char) -> (b: bool)
    ensures
        b == v@.contains(c),
{
    let mut i: usize = 0;
    while i < v.len()
        invariant
            i <= v@.len(),
            forall|j: int| 0 <= j < i ==> v@[j] != c,
        decreases v@.len() - i,
    {
        if v[i] == c {
            return true;
        }
        i = i + 1;
    }
    false
}

/// Whether two runs of characters are the same.
pub fn same(a: &[char], b: &[char]) -> (r: bool)
    ensures
        r == (a@ == b@),
{
    if a.len() != b.len() {
        return false;
    }
    let mut i: usize = 0;
    while i < a.len()
        invariant
            i <= a@.len() == b@.len(),
            forall|j: int| 0 <= j < i ==> a@[j] == b@[j],
        decreases a@.len() - i,
    {
        if a[i] != b[i] {
            return false;
        }
        i = i + 1;
    }
    assert(a@ =~= b@);
    true
}

/// Whether `v` begins with the string `p`.
pub fn has_prefix(v: &[char], p: &str) -> (r: bool)
    ensures
        r == starts_with(v@, p@),
{
    let w = chars_of(p);
    if w.len() > v.len() {
        return false;
    }
    let head = slice_of(v, 0, w.len());
    assert(head@ =~= v@.take(w@.len() as int));
    same(head.as_slice(), w.as_slice())
}

/// Whether `a` equals the string `b`.
pub fn same_str(a: &[char], b: &str) -> (r: bool)
    ensures
        r == (a@ == b@),
{
    let w = chars_of(b);
    same(a, w.as_slice())
}

/// Whether `t` occurs in `s`.
pub fn has_sub_vec(s: &[char], t: &[char]) -> (r: bool)
    ensures
        r == has_sub(s@, t@),
{
    if t.len() > s.len() {
        return false;
    }
    let n = s.len();
    let mut i: usize = 0;
    while i <= n - t.len()
        invariant
            n == s@.len(),
            t@.len() <= s@.len(),
            i <= s@.len() - t@.len() + 1,
            forall|k: int| 0 <= k < i ==> #[trigger] s@.subrange(k, k + t@.len()) != t@,
        decreases s@.len() - i,
    {
        let mut j: usize = 0;
        let mut matched = true;
        while j < t.len()
            invariant
                n == s@.len(),
                t@.len() <= s@.len(),
                i <= s@.len() - t@.len(),
                j <= t@.len(),
                matched == (forall|m: int| 0 <= m < j ==> s@[i + m] == t@[m]),
            decreases t@.len() - j,
        {
            assert(i + j < n);
            if s[i + j] != t[j] {
                matched = false;
            }
            j = j + 1;
        }
        if matched {
            assert(s@.subrange(i as int, i + t@.len()) =~= t@);
            return true;
        }
        proof {
            assert forall|k: int| 0 <= k < i + 1 implies #[trigger] s@.subrange(k, k + t@.len()) != t@ by {
                if k == i {
                    let m = choose|m: int| 0 <= m < t@.len() && s@[i + m] != t@[m];
                    assert(s@.subrange(k, k + t@.len())[m] == s@[i + m]);
                }
            }
        }
        i = i + 1;
    }
    assert forall|k: int| 0 <= k && k + t@.len() <= s@.len() implies #[trigger] s@.subrange(
        k,
        k + t@.len(),
    ) != t@ by {}
    false
}

/// Whether the string `t` occurs in `s`.
pub fn has_sub_str(s: &[char], t: &str) -> (r: bool)
    ensures
        r == has_sub(s@, t@),
{
    let w = chars_of(t);
    has_sub_vec(s, w.as_slice())
}

pub fn lower_vec(v: &[char]) -> (r: Vec<char>)
    ensures
        r@ == lower(v@),
{
    let mut r: Vec<char> = Vec::new();
    let mut i: usize = 0;
    while i < v.len()
        invariant
            i <= v@.len(),
            r@ == lower(v@.take(i as int)),
        decreases v@.len() - i,
    {
        let c = v[i];
        let l = if 'A' <= c && c <= 'Z' {
            ((c as u32) + 32) as u8 as char
        } else {
            c
        };
        assert(l == lower_char(c)) by {
            if 'A' <= c && c <= 'Z' {
                assert(((c as u32) + 32) as u8 as char == ((c as u32) + 32) as char);
            }
        };
        r.push(l);
        i = i + 1;
        assert(r@ =~= lower(v@.take(i as int)));
    }
    assert(v@.take(i as int) =~= v@);
    r
}

/// The decimal digits of `n`.
pub fn decimal_vec(n: u64) -> (r: Vec<char>)
    ensures
        r@ == decimal(n as nat),
    decreases n,
{
    if n < 10 {
        let c = ((n as u8) + 48) as char;
        let mut r: Vec<char> = Vec::new();
        r.push(c);
        assert(r@ =~= seq![digit_char(n as nat)]);
        r
    } else {
        let mut r = decimal_vec(n / 10);
        let c = (((n % 10) as u8) + 48) as char;
        r.push(c);
        r
    }
}

/// Append `n` in decimal.
pub fn push_decimal(s: &mut String, n: u64)
    ensures
        final(s)@ == old(s)@ + decimal(n as nat),
{
    let d = decimal_vec(n);
    push_chars(s, d.as_slice());
}

/// The lowercase hexadecimal digits of `n`, zero-padded to `width`.
pub fn hex_vec(n: u64, width: u64) -> (r: Vec<char>)
    ensures
        r@ == hex(n as nat, width as nat),
    decreases width, n,
{
    if n < 16 && width <= 1 {
        let mut r: Vec<char> = Vec::new();
        r.push(hex_digit(n));
        assert(r@ =~= seq![hex_char(n as nat)]);
        r
    } else {
        let mut r = hex_vec(n / 16, if width > 0 { width - 1 } else { 0 });
        r.push(hex_digit(n % 16));
        r
    }
}

fn hex_digit(d: u64) -> (c: char)
    requires
        d < 16,
    ensures
        c == hex_char(d as nat),
{
    if d < 10 {
        ((d as u8) + 48) as char
    } else {
        ((d as u8) - 10 + 97) as char
    }
}

/// What `str::parse` gives for an unsigned integer no larger than `max`.
pub fn parse_unsigned_vec(v: &[char], max: u64) -> (r: Option<u64>)
    ensures
        r matches Some(n) ==> parse_unsigned(v@, max as nat) == Some(n as nat),
        r is None ==> parse_unsigned(v@, max as nat) is None,
{
    let start: usize = if v.len() > 0 && v[0] == '+' {
        1
    } else {
        0
    };
    let ghost t = if v@.len() > 0 && v@[0] == '+' {
        v@.drop_first()
    } else {
        v@
    };
    assert(t =~= v@.skip(start as int));
    assert(parse_unsigned(v@, max as nat) == (if t.len() == 0 || !all_digits(t) || digits_value(t) > max as nat { None } else { Some(digits_value(t)) }));
    if start >= v.len() {
        assert(t.len() == 0);
        return None;
    }
    let mut i = start;
    while i < v.len()
        invariant
            start <= i <= v@.len(),
            t == v@.skip(start as int),
            parse_unsigned(v@, max as nat) == (if t.len() == 0 || !all_digits(t) || digits_value(t) > max as nat { None } else { Some(digits_value(t)) }),
            forall|j: int| start <= j < i ==> is_digit(#[trigger] v@[j]),
        decreases v@.len() - i,
    {
        if !('0' <= v[i] && v[i] <= '9') {
            assert(t[i - start] == v@[i as int]);
            assert(!is_digit(t[i - start]));
            assert(!all_digits(t));
            return None;
        }
        i = i + 1;
    }
    assert(all_digits(t)) by {
        assert forall|j: int| 0 <= j < t.len() implies is_digit(#[trigger] t[j]) by {
            assert(t[j] == v@[j + start]);
        }
    }
    let mut acc: u64 = 0;
    let mut i = start;
    while i < v.len()
        invariant
            start <= i <= v@.len(),
            all_digits(t),
            t == v@.skip(start as int),
            parse_unsigned(v@, max as nat) == (if t.len() == 0 || !all_digits(t) || digits_value(t) > max as nat { None } else { Some(digits_value(t)) }),
            acc as nat == digits_value(v@.subrange(start as int, i as int)),
            acc <= max,
        decreases v@.len() - i,
    {
        assert(t[i - start] == v@[i as int]);
        assert(is_digit(t[i - start]));
        let d = ((v[i] as u32) - 48) as u64;
        assert(d as nat == digit_value(v@[i as int]));
        assert(v@.subrange(start as int, i + 1).last() == v@[i as int]);
        assert(v@.subrange(start as int, i + 1).drop_last() =~= v@.subrange(start as int, i as int));
        if d > max || acc > (max - d) / 10 {
            proof {
                assert(acc * 10 + d > max) by (nonlinear_arith)
                    requires
                        d > max || acc > (max - d) / 10,
                        d <= 9,
                ;
                lemma_digits_grow(t, (i + 1 - start) as nat);
                assert(t.take(i + 1 - start) =~= v@.subrange(start as int, i + 1));
            }
            return None;
        }
        assert(acc * 10 + d <= max) by (nonlinear_arith)
            requires
                acc <= (max - d) / 10,
                d <= max,
        ;
        acc = acc * 10 + d;
        i = i + 1;
    }
    assert(v@.subrange(start as int, v@.len() as int) =~= t);
    Some(acc)
}

proof fn lemma_digits_grow(t: Seq<char>, k: nat)
    requires
        all_digits(t),
        k <= t.len(),
    ensures
        digits_value(t.take(k as int)) <= digits_value(t),
    decreases t.len() - k,
{
    if k < t.len() {
        lemma_digits_grow(t, k + 1);
        assert(t.take(k as int + 1).drop_last() =~= t.take(k as int));
    } else {
        assert(t.take(k as int) =~= t);
    }
}

} // verus!

verus! {

/// The views of a list of strings.
pub open spec fn string_views(v: Seq<String>) -> Seq<Seq<char>> {
    v.map_values(|x: String| x@)
}

/// The pieces that are not empty, in order.
pub open spec fn keep_nonempty(parts: Seq<Seq<char>>) -> Seq<Seq<char>>
    decreases parts.len(),
{
    if parts.len() == 0 {
        Seq::empty()
    } else if parts[0].len() == 0 {
        keep_nonempty(parts.drop_first())
    } else {
        seq![parts[0]] + keep_nonempty(parts.drop_first())
    }
}

/// Every piece trimmed.
pub open spec fn trim_all(parts: Seq<Seq<char>>) -> Seq<Seq<char>> {
    parts.map_values(|p: Seq<char>| trim(p))
}

/// `trim_end_matches`: the suffix taken off for as long as it is there.
pub open spec fn strip_suffix_all(s: Seq<char>, suffix: Seq<char>) -> Seq<char>
    decreases s.len(),
{
    if suffix.len() > 0 && ends_with(s, suffix) {
        strip_suffix_all(s.take(s.len() - suffix.len()), suffix)
    } else {
        s
    }
}

pub proof fn lemma_keep_nonempty_push(parts: Seq<Seq<char>>, p: Seq<char>)
    ensures
        keep_nonempty(parts.push(p)) == if p.len() == 0 {
            keep_nonempty(parts)
        } else {
            keep_nonempty(parts).push(p)
        },
    decreases parts.len(),
{
    if parts.len() == 0 {
        assert(parts.push(p).drop_first() =~= Seq::<Seq<char>>::empty());
        assert(keep_nonempty(Seq::<Seq<char>>::empty()) == Seq::<Seq<char>>::empty());
        assert(seq![p] + Seq::<Seq<char>>::empty() =~= Seq::<Seq<char>>::empty().push(p));
    } else {
        assert(parts.push(p).drop_first() =~= parts.drop_first().push(p));
        lemma_keep_nonempty_push(parts.drop_first(), p);
        if parts[0].len() != 0 {
            assert(seq![parts[0]] + keep_nonempty(parts.drop_first()).push(p) =~= (seq![parts[0]]
                + keep_nonempty(parts.drop_first())).push(p));
        }
    }
}

/// `trim_end_matches` with a fixed suffix, on characters.
pub fn strip_suffix_all_vec(v: &[char], suffix: &[char]) -> (r: Vec<char>)
    ensures
        r@ == strip_suffix_all(v@, suffix@),
{
    let mut end = v.len();
    assert(v@.take(end as int) =~= v@);
    while suffix.len() > 0 && suffix.len() <= end && same(
        slice_of(v, end - suffix.len(), end).as_slice(),
        suffix,
    )
        invariant
            end <= v@.len(),
            strip_suffix_all(v@, suffix@) == strip_suffix_all(v@.take(end as int), suffix@),
        decreases end,
    {
        proof {
            let s = v@.take(end as int);
            assert(s.skip(s.len() - suffix@.len()) =~= v@.subrange(end - suffix@.len(), end as int));
            assert(s.take(s.len() - suffix@.len()) =~= v@.take(end - suffix@.len()));
        }
        end = end - suffix.len();
    }
    proof {
        let s = v@.take(end as int);
        if suffix@.len() > 0 && suffix@.len() <= end {
            assert(s.skip(s.len() - suffix@.len()) =~= v@.subrange(end - suffix@.len(), end as int));
        }
        assert(v@.subrange(0, end as int) =~= s);
    }
    slice_of(v, 0, end)
}

} // verus!

verus! {

/// `str::lines` on characters.
pub fn lines_vec(v: &[char]) -> (r: Vec<Vec<char>>)
    ensures
        views(r@) == lines(v@),
{
    let parts = split_vec(v, '\n');
    let ghost p = split(v@, '\n');
    let n = parts.len();
    let mut out: Vec<Vec<char>> = Vec::new();
    let mut i: usize = 0;
    while i + 1 < n
        invariant
            n == parts@.len(),
            n >= 1,
            i <= n - 1,
            views(parts@) == p,
            views(out@) == p.drop_last().take(i as int).map_values(|x: Seq<char>| strip_cr(x)),
        decreases n - i,
    {
        let piece = &parts[i];
        let len = piece.len();
        let line = if len > 0 && piece[len - 1] == '\r' {
            slice_of(piece.as_slice(), 0, len - 1)
        } else {
            slice_of(piece.as_slice(), 0, len)
        };
        proof {
            assert(p[i as int] == parts@[i as int]@);
            if len > 0 && piece@[len - 1] == '\r' {
                assert(line@ =~= strip_cr(p[i as int]));
            } else {
                assert(line@ =~= strip_cr(p[i as int]));
            }
        }
        let ghost before = out@;
        out.push(line);
        i = i + 1;
        proof {
            assert(views(out@) =~= views(before).push(line@));
            assert(p.drop_last().take(i as int).map_values(|x: Seq<char>| strip_cr(x))
                =~= p.drop_last().take(i - 1).map_values(|x: Seq<char>| strip_cr(x)).push(
                strip_cr(p.drop_last()[i - 1]),
            ));
        }
    }
    assert(p.drop_last().take(i as int) =~= p.drop_last());
    let last = &parts[n - 1];
    assert(p.last() == last@);
    if last.len() > 0 {
        let kept = slice_of(last.as_slice(), 0, last.len());
        assert(kept@ =~= last@);
        let ghost before = out@;
        out.push(kept);
        assert(views(out@) =~= views(before).push(kept@));
    }
    out
}

/// Join character runs with a separator, appending to `s`.
pub fn push_joined(s: &mut String, parts: &Vec<Vec<char>>, sep: &[char])
    ensures
        final(s)@ == old(s)@ + join(views(parts@), sep@),
{
    let ghost start = s@;
    let ghost all = views(parts@);
    let mut i: usize = 0;
    proof {
        lemma_join_prefix(all, sep@, 0);
    }
    while i < parts.len()
        invariant
            i <= parts@.len(),
            all == views(parts@),
            s@ == start + join(all.take(i as int), sep@),
        decreases parts@.len() - i,
    {
        if i > 0 {
            push_chars(s, sep);
        }
        push_chars(s, parts[i].as_slice());
        proof {
            lemma_join_prefix(all, sep@, i as nat);
            assert(all[i as int] == parts@[i as int]@);
        }
        i = i + 1;
    }
    assert(all.take(i as int) =~= all);
}

/// Joining one more piece onto a prefix.
pub proof fn lemma_join_prefix(all: Seq<Seq<char>>, sep: Seq<char>, i: nat)
    requires
        i <= all.len(),
    ensures
        join(all.take(0), sep) == Seq::<char>::empty(),
        i < all.len() ==> join(all.take(i as int + 1), sep) == if i == 0 {
            all[0]
        } else {
            join(all.take(i as int), sep) + sep + all[i as int]
        },
    decreases i,
{
    assert(all.take(0).len() == 0);
    if i < all.len() {
        if i == 0 {
            assert(all.take(1).len() == 1);
        } else {
            lemma_join_push(all.take(i as int), sep, all[i as int]);
            assert(all.take(i as int).push(all[i as int]) =~= all.take(i as int + 1));
        }
    }
}

/// Joining a list that has one more piece on the end.
pub proof fn lemma_join_push(parts: Seq<Seq<char>>, sep: Seq<char>, p: Seq<char>)
    requires
        parts.len() >= 1,
    ensures
        join(parts.push(p), sep) == join(parts, sep) + sep + p,
    decreases parts.len(),
{
    let q = parts.push(p);
    if parts.len() == 1 {
        assert(q.drop_first() =~= seq![p]);
        assert(join(seq![p], sep) == p);
    } else {
        assert(q.drop_first() =~= parts.drop_first().push(p));
        lemma_join_push(parts.drop_first(), sep, p);
        assert(parts[0] + sep + (join(parts.drop_first(), sep) + sep + p) =~= (parts[0] + sep
            + join(parts.drop_first(), sep)) + sep + p);
    }
}

} // verus!

verus! {

/// A split never has more pieces than the text has characters, plus one.
pub proof fn lemma_split_count(s: Seq<char>, c: char)
    ensures
        split(s, c).len() <= s.len() + 1,
    decreases s.len(),
{
    lemma_find_bounds(s, c);
    let i = find(s, c);
    if !(i < 0 || i >= s.len()) {
        lemma_split_count(s.skip(i + 1), c);
    }
}

pub proof fn lemma_lines_len(s: Seq<char>)
    ensures
        lines(s).len() <= s.len() + 1,
{
    lemma_split_count(s, '\n');
    lemma_split_len(s, '\n');
}

} // verus!

verus! {

/// Pieces that are all non-empty are kept as they are.
pub proof fn lemma_keep_nonempty_all(parts: Seq<Seq<char>>)
    requires
        forall|i: int| 0 <= i < parts.len() ==> (#[trigger] parts[i]).len() > 0,
    ensures
        keep_nonempty(parts) == parts,
    decreases parts.len(),
{
    if parts.len() > 0 {
        let rest = parts.drop_first();
        assert forall|i: int| 0 <= i < rest.len() implies (#[trigger] rest[i]).len() > 0 by {
            assert(rest[i] == parts[i + 1]);
        }
        lemma_keep_nonempty_all(rest);
        assert(parts[0].len() > 0);
        assert(seq![parts[0]] + rest =~= parts);
    }
}

/// Every piece `keep_nonempty` keeps is non-empty and came from the input.
pub proof fn lemma_keep_nonempty_from(parts: Seq<Seq<char>>)
    ensures
        forall|i: int| 0 <= i < keep_nonempty(parts).len() ==> (#[trigger] keep_nonempty(parts)[i]).len() > 0,
        forall|i: int| 0 <= i < keep_nonempty(parts).len() ==> parts.contains(#[trigger] keep_nonempty(parts)[i]),
    decreases parts.len(),
{
    if parts.len() > 0 {
        let rest = parts.drop_first();
        lemma_keep_nonempty_from(rest);
        let k = keep_nonempty(parts);
        assert forall|i: int| 0 <= i < k.len() implies parts.contains(#[trigger] k[i]) by {
            if parts[0].len() == 0 {
                let w = choose|j: int| 0 <= j < rest.len() && rest[j] == k[i];
                assert(parts[w + 1] == k[i]);
            } else if i == 0 {
                assert(parts[0] == k[0]);
            } else {
                assert(k[i] == keep_nonempty(rest)[i - 1]);
                let w = choose|j: int| 0 <= j < rest.len() && rest[j] == k[i];
                assert(parts[w + 1] == k[i]);
            }
        }
        assert forall|i: int| 0 <= i < k.len() implies (#[trigger] k[i]).len() > 0 by {
            if parts[0].len() != 0 && i > 0 {
                assert(k[i] == keep_nonempty(rest)[i - 1]);
            }
        }
    }
}

/// A character missing from every piece and from the separator is missing
/// from the join.
pub proof fn lemma_join_free(parts: Seq<Seq<char>>, sep: Seq<char>, c: char)
    requires
        forall|i: int| 0 <= i < parts.len() ==> !(#[trigger] parts[i]).contains(c),
        !sep.contains(c),
    ensures
        !join(parts, sep).contains(c),
    decreases parts.len(),
{
    if parts.len() >= 2 {
        let rest = parts.drop_first();
        assert forall|i: int| 0 <= i < rest.len() implies !(#[trigger] rest[i]).contains(c) by {
            assert(rest[i] == parts[i + 1]);
        }
        lemma_join_free(rest, sep, c);
        lemma_concat_free(parts[0], sep, c);
        lemma_concat_free(parts[0] + sep, join(rest, sep), c);
    } else if parts.len() == 1 {
        assert(!parts[0].contains(c));
    }
}

/// A character missing from both halves is missing from the whole.
pub proof fn lemma_concat_free(a: Seq<char>, b: Seq<char>, c: char)
    requires
        !a.contains(c),
        !b.contains(c),
    ensures
        !(a + b).contains(c),
{
    assert forall|i: int| 0 <= i < (a + b).len() implies (a + b)[i] != c by {
        if i < a.len() {
            assert((a + b)[i] == a[i]);
        } else {
            assert((a + b)[i] == b[i - a.len()]);
        }
    }
}

/// The last character of a join is the last character of its last piece.
pub proof fn lemma_join_last(parts: Seq<Seq<char>>, sep: Seq<char>)
    requires
        parts.len() >= 1,
        parts.last().len() > 0,
    ensures
        join(parts, sep).len() > 0,
        join(parts, sep).last() == parts.last().last(),
    decreases parts.len(),
{
    if parts.len() >= 2 {
        let rest = parts.drop_first();
        assert(rest.last() == parts.last());
        lemma_join_last(rest, sep);
    }
}

/// `parse` reads back what `decimal` writes.
pub proof fn lemma_parse_decimal(n: nat, max: nat)
    requires
        n <= max,
    ensures
        parse_unsigned(decimal(n), max) == Some(n),
{
    lemma_decimal_len(n);
    let d = decimal(n);
    assert(is_digit(d[0]));
}

} // verus!

verus! {

/// The characters of each string.
pub fn chars_of_all(v: &[String]) -> (r: Vec<Vec<char>>)
    ensures
        views(r@) == string_views(v@),
{
    let mut r: Vec<Vec<char>> = Vec::new();
    let mut i: usize = 0;
    while i < v.len()
        invariant
            i <= v@.len(),
            views(r@) == string_views(v@.take(i as int)),
        decreases v@.len() - i,
    {
        let ghost before = r@;
        let c = chars_of(v[i].as_str());
        r.push(c);
        assert(views(r@) =~= views(before).push(v@[i as int]@));
        assert(string_views(v@.take(i + 1)) =~= string_views(v@.take(i as int)).push(v@[i as int]@));
        i = i + 1;
    }
    assert(v@.take(i as int) =~= v@);
    r
}

/// The characters of a join, as a vector.
pub fn joined(parts: &Vec<Vec<char>>, sep: &[char]) -> (r: Vec<char>)
    ensures
        r@ == join(views(parts@), sep@),
{
    let mut s = String::new();
    push_joined(&mut s, parts, sep);
    chars_of(s.as_str())
}

} // verus!
