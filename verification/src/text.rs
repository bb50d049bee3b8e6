//! Character-level text model shared by every renderer and scanner.
//!
//! Strings are modelled by their `Seq<char>` views. The functions here
//! give the line/join/trim vocabulary that the rest of the crate states
//! its contracts in, together with verified implementations over
//! `Vec<char>`.

use vstd::prelude::*;

verus! {

// ---------------------------------------------------------------------------
// Character classes
// ---------------------------------------------------------------------------

pub open spec fn is_lower(c: char) -> bool {
    'a' <= c && c <= 'z'
}

pub open spec fn is_upper(c: char) -> bool {
    'A' <= c && c <= 'Z'
}

pub open spec fn is_digit(c: char) -> bool {
    '0' <= c && c <= '9'
}

/// `[a-z0-9]`
pub open spec fn is_base36(c: char) -> bool {
    is_lower(c) || is_digit(c)
}

pub open spec fn is_ascii_alnum(c: char) -> bool {
    is_lower(c) || is_upper(c) || is_digit(c)
}

pub open spec fn is_ascii(c: char) -> bool {
    (c as u32) < 128
}

/// The six ASCII characters that Rust's `char::is_whitespace` accepts.
pub open spec fn is_ascii_space(c: char) -> bool {
    c == ' ' || c == '\t' || c == '\n' || c == '\x0B' || c == '\x0C' || c == '\r'
}

/// Unicode `Alphabetic` or `Numeric` (what `char::is_alphanumeric` tests).
pub uninterp spec fn unicode_alphanumeric(c: char) -> bool;

/// Unicode `White_Space` (what `char::is_whitespace` tests).
pub uninterp spec fn unicode_whitespace(c: char) -> bool;

/// `char::is_alphanumeric`. Its documentation defines it by the Unicode
/// `Alphabetic` and `Numeric` properties; on ASCII that is exactly
/// `[A-Za-z0-9]`, which is all this contract claims beyond the name.
#[verifier::external_body]
pub(crate) fn char_is_alphanumeric(c: char) -> (r: bool)
    ensures
        r == unicode_alphanumeric(c),
        is_ascii(c) ==> (r == is_ascii_alnum(c)),
{
    c.is_alphanumeric()
}

/// `char::is_whitespace`. Documented as the Unicode `White_Space`
/// property; on ASCII it holds exactly for space, tab, LF, VT, FF and CR.
#[verifier::external_body]
pub(crate) fn char_is_whitespace(c: char) -> (r: bool)
    ensures
        r == unicode_whitespace(c),
        is_ascii(c) ==> (r == is_ascii_space(c)),
{
    c.is_whitespace()
}

pub fn is_lower_exec(c: char) -> (r: bool)
    ensures
        r == is_lower(c),
{
    'a' <= c && c <= 'z'
}

pub fn is_digit_exec(c: char) -> (r: bool)
    ensures
        r == is_digit(c),
{
    '0' <= c && c <= '9'
}

pub fn is_upper_exec(c: char) -> (r: bool)
    ensures
        r == is_upper(c),
{
    'A' <= c && c <= 'Z'
}

// ---------------------------------------------------------------------------
// str <-> Vec<char>
// ---------------------------------------------------------------------------

/// The characters of `s`, in order.
pub fn chars_of(s: &str) -> (v: Vec<char>)
    ensures
        v@ == s@,
{
    let mut v: Vec<char> = Vec::new();
    for c in it: s.chars()
        invariant
            v@ == it.seq().take(it.index() as int),
    {
        v.push(c);
    }
    v
}

/// `String::from_iter` over a slice of characters.
#[verifier::external_body]
pub(crate) fn string_of(v: &[char]) -> (s: String)
    ensures
        s@ == v@,
{
    v.iter().collect()
}

/// `<str as PartialEq>::eq`.
#[verifier::external_body]
pub(crate) fn str_eq(a: &str, b: &str) -> (r: bool)
    ensures
        r == (a@ == b@),
{
    a == b
}

pub fn string_from(s: &str) -> (r: String)
    ensures
        r@ == s@,
{
    let v = chars_of(s);
    string_of(v.as_slice())
}

/// Append the characters of `s` to `out`.
pub fn push_str(out: &mut Vec<char>, s: &str)
    ensures
        final(out)@ == old(out)@ + s@,
{
    let v = chars_of(s);
    append_chars(out, v.as_slice());
}

/// Append `v` to `out`.
pub fn append_chars(out: &mut Vec<char>, v: &[char])
    ensures
        final(out)@ == old(out)@ + v@,
{
    let ghost start = out@;
    let mut i: usize = 0;
    while i < v.len()
        invariant
            i <= v@.len(),
            out@ == start + v@.take(i as int),
        decreases v@.len() - i,
    {
        out.push(v[i]);
        i += 1;
        proof {
            assert(v@.take(i as int) =~= v@.take(i - 1) + seq![v@[i - 1]]);
        }
    }
    proof {
        assert(v@.take(i as int) =~= v@);
    }
}

/// Equality of two character vectors.
pub fn chars_eq(a: &[char], b: &[char]) -> (r: bool)
    ensures
        r == (a@ == b@),
{
    if a.len() != b.len() {
        return false;
    }
    let mut i: usize = 0;
    while i < a.len()
        invariant
            a@.len() == b@.len(),
            i <= a@.len(),
            forall|j: int| 0 <= j < i ==> a@[j] == b@[j],
        decreases a@.len() - i,
    {
        if a[i] != b[i] {
            return false;
        }
        i += 1;
    }
    proof {
        assert(a@ =~= b@);
    }
    true
}

/// Equality of a character vector with a string.
pub fn chars_eq_str(a: &[char], b: &str) -> (r: bool)
    ensures
        r == (a@ == b@),
{
    let bv = chars_of(b);
    chars_eq(a, bv.as_slice())
}

// ---------------------------------------------------------------------------
// prefixes, substrings
// ---------------------------------------------------------------------------

pub open spec fn starts_with(s: Seq<char>, p: Seq<char>) -> bool {
    p.len() <= s.len() && s.subrange(0, p.len() as int) == p
}

pub open spec fn ends_with(s: Seq<char>, p: Seq<char>) -> bool {
    p.len() <= s.len() && s.subrange(s.len() - p.len(), s.len() as int) == p
}

/// `needle` occurs in `hay` at position `i`.
pub open spec fn occurs_at(hay: Seq<char>, needle: Seq<char>, i: int) -> bool {
    0 <= i && i + needle.len() <= hay.len() && hay.subrange(i, i + needle.len()) == needle
}

pub open spec fn contains_seq(hay: Seq<char>, needle: Seq<char>) -> bool {
    exists|i: int| occurs_at(hay, needle, i)
}

/// `str::replace`: every non-overlapping occurrence of `p`, scanning from
/// the left, replaced by `t`; an empty `p` puts `t` before each character
/// and at the end.
pub open spec fn replace_all(s: Seq<char>, p: Seq<char>, t: Seq<char>) -> Seq<char>
    decreases s.len(),
{
    if p.len() == 0 {
        if s.len() == 0 {
            t
        } else {
            t + seq![s[0]] + replace_all(s.drop_first(), p, t)
        }
    } else if s.len() < p.len() {
        s
    } else if s.take(p.len() as int) == p {
        t + replace_all(s.skip(p.len() as int), p, t)
    } else {
        seq![s[0]] + replace_all(s.drop_first(), p, t)
    }
}

/// Replace every occurrence of `p` in `s` by `t` (see [`replace_all`]).
pub fn replace_all_exec(s: &[char], p: &[char], t: &[char]) -> (r: Vec<char>)
    ensures
        r@ == replace_all(s@, p@, t@),
{
    let mut out: Vec<char> = Vec::new();
    let mut i: usize = 0;
    proof {
        assert(s@.skip(0) =~= s@);
    }
    while i < s.len()
        invariant
            i <= s@.len(),
            out@ + replace_all(s@.skip(i as int), p@, t@) == replace_all(s@, p@, t@),
        decreases s@.len() - i,
    {
        let ghost rest = s@.skip(i as int);
        let ghost before = out@;
        if p.len() == 0 {
            append_chars(&mut out, t);
            out.push(s[i]);
            proof {
                assert(rest[0] == s@[i as int]);
                assert(rest.drop_first() =~= s@.skip(i + 1));
                assert(out@ =~= before + t@ + seq![rest[0]]);
                assert(out@ + replace_all(s@.skip(i + 1), p@, t@) =~= before + (t@ + seq![rest[0]] + replace_all(rest.drop_first(), p@, t@)));
            }
            i += 1;
        } else if p.len() > s.len() - i {
            let tail = slice_range(s, i, s.len());
            append_chars(&mut out, tail.as_slice());
            proof {
                assert(s@.subrange(i as int, s@.len() as int) =~= rest);
                assert(s@.skip(s@.len() as int) =~= Seq::<char>::empty());
                assert(replace_all(Seq::<char>::empty(), p@, t@) =~= Seq::<char>::empty());
                assert(out@ + replace_all(s@.skip(s@.len() as int), p@, t@) =~= before + rest);
            }
            i = s.len();
        } else if occurs_at_exec(s, p, i) {
            append_chars(&mut out, t);
            proof {
                assert(rest.take(p@.len() as int) =~= s@.subrange(i as int, i + p@.len()));
                assert(rest.skip(p@.len() as int) =~= s@.skip(i + p@.len()));
                assert(out@ + replace_all(s@.skip(i + p@.len()), p@, t@) =~= before + (t@ + replace_all(rest.skip(p@.len() as int), p@, t@)));
            }
            i += p.len();
        } else {
            out.push(s[i]);
            proof {
                assert(rest.take(p@.len() as int) =~= s@.subrange(i as int, i + p@.len()));
                assert(rest[0] == s@[i as int]);
                assert(rest.drop_first() =~= s@.skip(i + 1));
                assert(out@ + replace_all(s@.skip(i + 1), p@, t@) =~= before + (seq![rest[0]] + replace_all(rest.drop_first(), p@, t@)));
            }
            i += 1;
        }
    }
    if p.len() == 0 {
        let ghost before = out@;
        append_chars(&mut out, t);
        proof {
            assert(s@.skip(i as int) =~= Seq::<char>::empty());
            assert(out@ =~= before + replace_all(s@.skip(i as int), p@, t@));
        }
    } else {
        proof {
            assert(s@.skip(i as int) =~= Seq::<char>::empty());
            assert(out@ + replace_all(s@.skip(i as int), p@, t@) =~= out@);
        }
    }
    out
}

pub fn starts_with_exec(s: &[char], p: &[char]) -> (r: bool)
    ensures
        r == starts_with(s@, p@),
{
    if p.len() > s.len() {
        return false;
    }
    let mut i: usize = 0;
    while i < p.len()
        invariant
            p@.len() <= s@.len(),
            i <= p@.len(),
            forall|j: int| 0 <= j < i ==> s@[j] == p@[j],
        decreases p@.len() - i,
    {
        if s[i] != p[i] {
            proof {
                assert(s@.subrange(0, p@.len() as int)[i as int] != p@[i as int]);
            }
            return false;
        }
        i += 1;
    }
    proof {
        assert(s@.subrange(0, p@.len() as int) =~= p@);
    }
    true
}

/// Does `needle` occur in `hay` at position `i`?
pub fn occurs_at_exec(hay: &[char], needle: &[char], i: usize) -> (r: bool)
    ensures
        r == occurs_at(hay@, needle@, i as int),
{
    if i > hay.len() || needle.len() > hay.len() - i {
        return false;
    }
    let mut k: usize = 0;
    while k < needle.len()
        invariant
            i + needle@.len() <= hay@.len(),
            hay@.len() == hay.len(),
            k <= needle@.len(),
            forall|j: int| 0 <= j < k ==> hay@[i + j] == needle@[j],
        decreases needle@.len() - k,
    {
        assert(i + k < hay@.len());
        if hay[i + k] != needle[k] {
            proof {
                assert(hay@.subrange(i as int, i + needle@.len())[k as int] != needle@[k as int]);
            }
            return false;
        }
        k += 1;
    }
    proof {
        assert(hay@.subrange(i as int, i + needle@.len()) =~= needle@);
    }
    true
}

/// First position at which `needle` occurs in `hay`, if any.
pub fn find_seq(hay: &[char], needle: &[char]) -> (r: Option<usize>)
    ensures
        match r {
            Some(i) => occurs_at(hay@, needle@, i as int) && forall|j: int|
                0 <= j < i ==> !occurs_at(hay@, needle@, j),
            None => !contains_seq(hay@, needle@),
        },
{
    let mut i: usize = 0;
    loop
        invariant
            i <= hay@.len(),
            forall|j: int| 0 <= j < i ==> !occurs_at(hay@, needle@, j),
        decreases hay@.len() - i,
    {
        if occurs_at_exec(hay, needle, i) {
            return Some(i);
        }
        if i == hay.len() {
            assert forall|j: int| !occurs_at(hay@, needle@, j) by {
                if 0 <= j && j < i {
                }
            }
            return None;
        }
        i += 1;
    }
}

pub fn contains_exec(hay: &[char], needle: &[char]) -> (r: bool)
    ensures
        r == contains_seq(hay@, needle@),
{
    match find_seq(hay, needle) {
        Some(_) => true,
        None => false,
    }
}

// ---------------------------------------------------------------------------
// lines (`str::lines`)
// ---------------------------------------------------------------------------

pub open spec fn strip_cr(s: Seq<char>) -> Seq<char> {
    if s.len() > 0 && s.last() == '\r' {
        s.drop_last()
    } else {
        s
    }
}

pub open spec fn no_newline(s: Seq<char>) -> bool {
    forall|k: int| 0 <= k < s.len() ==> s[k] != '\n'
}

/// Position of the first `'\n'` in `s` at or after `from` (or `s.len()`).
pub open spec fn next_newline(s: Seq<char>, from: int) -> int
    decreases s.len() - from,
{
    if from >= s.len() {
        s.len() as int
    } else if s[from] == '\n' {
        from
    } else {
        next_newline(s, from + 1)
    }
}

/// `str::lines`: split at `'\n'`, drop a `'\r'` that precedes a `'\n'`,
/// and omit the empty piece after a final line ending.
pub open spec fn lines_from(s: Seq<char>, from: nat) -> Seq<Seq<char>>
    decreases s.len() - from,
{
    if from >= s.len() {
        seq![]
    } else {
        let e = next_newline(s, from as int);
        proof {
            lemma_next_newline(s, from as int);
        }
        if e >= s.len() {
            seq![s.subrange(from as int, s.len() as int)]
        } else {
            seq![strip_cr(s.subrange(from as int, e))] + lines_from(s, (e + 1) as nat)
        }
    }
}

pub open spec fn lines(s: Seq<char>) -> Seq<Seq<char>> {
    lines_from(s, 0)
}

pub proof fn lemma_next_newline(s: Seq<char>, from: int)
    requires
        0 <= from <= s.len(),
    ensures
        from <= next_newline(s, from) <= s.len(),
        next_newline(s, from) < s.len() ==> s[next_newline(s, from)] == '\n',
        forall|k: int| from <= k < next_newline(s, from) ==> s[k] != '\n',
    decreases s.len() - from,
{
    if from < s.len() && s[from] != '\n' {
        lemma_next_newline(s, from + 1);
    }
}

/// A newline-free scan from `from` to `e` determines `next_newline`.
pub proof fn lemma_next_newline_at(s: Seq<char>, from: int, e: int)
    requires
        0 <= from <= e <= s.len(),
        forall|k: int| from <= k < e ==> s[k] != '\n',
        e == s.len() || s[e] == '\n',
    ensures
        next_newline(s, from) == e,
    decreases e - from,
{
    if from < e {
        lemma_next_newline_at(s, from + 1, e);
    }
}

pub open spec fn views(v: Seq<Vec<char>>) -> Seq<Seq<char>> {
    Seq::new(v.len(), |i: int| v[i]@)
}

pub fn strip_cr_exec(v: Vec<char>) -> (r: Vec<char>)
    ensures
        r@ == strip_cr(v@),
{
    let mut v = v;
    if v.len() > 0 && v[v.len() - 1] == '\r' {
        v.pop();
    }
    v
}

/// The lines of `s` (`str::lines`).
pub fn lines_of(s: &[char]) -> (r: Vec<Vec<char>>)
    ensures
        views(r@) == lines(s@),
{
    let mut out: Vec<Vec<char>> = Vec::new();
    let mut cur: Vec<char> = Vec::new();
    let mut start: usize = 0;
    let mut i: usize = 0;
    while i < s.len()
        invariant
            start <= i <= s@.len(),
            cur@ == s@.subrange(start as int, i as int),
            forall|k: int| start <= k < i ==> s@[k] != '\n',
            views(out@) + lines_from(s@, start as nat) == lines(s@),
        decreases s@.len() - i,
    {
        if s[i] == '\n' {
            proof {
                lemma_next_newline_at(s@, start as int, i as int);
            }
            let line = strip_cr_exec(cur);
            let ghost before = views(out@);
            out.push(line);
            proof {
                assert(views(out@) =~= before + seq![strip_cr(s@.subrange(start as int, i as int))]);
            }
            cur = Vec::new();
            i += 1;
            start = i;
            proof {
                assert(cur@ =~= s@.subrange(start as int, i as int));
            }
        } else {
            cur.push(s[i]);
            i += 1;
            proof {
                assert(cur@ =~= s@.subrange(start as int, i as int));
            }
        }
    }
    if start < s.len() {
        proof {
            lemma_next_newline_at(s@, start as int, i as int);
        }
        let ghost before = views(out@);
        out.push(cur);
        proof {
            assert(views(out@) =~= before + seq![s@.subrange(start as int, s@.len() as int)]);
        }
    } else {
        proof {
            assert(views(out@) + lines_from(s@, start as nat) =~= views(out@));
        }
    }
    out
}

// ---------------------------------------------------------------------------
// join
// ---------------------------------------------------------------------------

/// `parts.join(sep)`.
pub open spec fn join(parts: Seq<Seq<char>>, sep: Seq<char>) -> Seq<char>
    decreases parts.len(),
{
    if parts.len() == 0 {
        seq![]
    } else if parts.len() == 1 {
        parts[0]
    } else {
        join(parts.drop_last(), sep) + sep + parts.last()
    }
}

/// Join `parts` with `sep` between adjacent pieces.
pub fn join_chars(parts: &Vec<Vec<char>>, sep: &[char]) -> (r: Vec<char>)
    ensures
        r@ == join(views(parts@), sep@),
{
    let mut out: Vec<char> = Vec::new();
    let mut i: usize = 0;
    while i < parts.len()
        invariant
            i <= parts@.len(),
            out@ == join(views(parts@).take(i as int), sep@),
        decreases parts@.len() - i,
    {
        proof {
            assert(views(parts@).take(i + 1).drop_last() =~= views(parts@).take(i as int));
        }
        if i > 0 {
            append_chars(&mut out, sep);
        }
        append_chars(&mut out, parts[i].as_slice());
        i += 1;
        proof {
            if i == 1 {
                assert(out@ =~= views(parts@).take(1)[0]);
            }
        }
    }
    proof {
        assert(views(parts@).take(i as int) =~= views(parts@));
    }
    out
}

/// Join `parts` with `sep` into a `String`.
pub fn join_to_string(parts: &Vec<Vec<char>>, sep: &str) -> (r: String)
    ensures
        r@ == join(views(parts@), sep@),
{
    let sepv = chars_of(sep);
    let v = join_chars(parts, sepv.as_slice());
    string_of(v.as_slice())
}

// ---------------------------------------------------------------------------
// trim
// ---------------------------------------------------------------------------

/// Index of the first non-whitespace character at or after `from`.
pub open spec fn trim_start_index(s: Seq<char>, from: int) -> int
    decreases s.len() - from,
{
    if from >= s.len() {
        s.len() as int
    } else if unicode_whitespace(s[from]) {
        trim_start_index(s, from + 1)
    } else {
        from
    }
}

/// One past the last non-whitespace character at or before `to`.
pub open spec fn trim_end_index(s: Seq<char>, lo: int, to: int) -> int
    decreases to - lo,
{
    if to <= lo {
        lo
    } else if unicode_whitespace(s[to - 1]) {
        trim_end_index(s, lo, to - 1)
    } else {
        to
    }
}

/// `str::trim`: drop leading and trailing whitespace.
pub open spec fn trim(s: Seq<char>) -> Seq<char> {
    let lo = trim_start_index(s, 0);
    s.subrange(lo, trim_end_index(s, lo, s.len() as int))
}

/// `str::trim_end`.
pub open spec fn trim_end(s: Seq<char>) -> Seq<char> {
    s.subrange(0, trim_end_index(s, 0, s.len() as int))
}

pub proof fn lemma_trim_start_bounds(s: Seq<char>, from: int)
    requires
        0 <= from <= s.len(),
    ensures
        from <= trim_start_index(s, from) <= s.len(),
    decreases s.len() - from,
{
    if from < s.len() && unicode_whitespace(s[from]) {
        lemma_trim_start_bounds(s, from + 1);
    }
}

pub proof fn lemma_trim_end_bounds(s: Seq<char>, lo: int, to: int)
    requires
        0 <= lo <= to <= s.len(),
    ensures
        lo <= trim_end_index(s, lo, to) <= to,
    decreases to - lo,
{
    if to > lo && unicode_whitespace(s[to - 1]) {
        lemma_trim_end_bounds(s, lo, to - 1);
    }
}

/// Leading whitespace count, from `from`.
fn trim_start_exec(s: &[char], from: usize) -> (r: usize)
    requires
        from <= s@.len(),
    ensures
        r == trim_start_index(s@, from as int),
    decreases s@.len() - from,
{
    let mut i = from;
    while i < s.len()
        invariant
            from <= i <= s@.len(),
            trim_start_index(s@, i as int) == trim_start_index(s@, from as int),
        decreases s@.len() - i,
    {
        if !char_is_whitespace(s[i]) {
            return i;
        }
        i += 1;
    }
    i
}

fn trim_end_exec(s: &[char], lo: usize, to: usize) -> (r: usize)
    requires
        lo <= to <= s@.len(),
    ensures
        r == trim_end_index(s@, lo as int, to as int),
{
    let mut j = to;
    while j > lo
        invariant
            lo <= j <= to,
            to <= s@.len(),
            trim_end_index(s@, lo as int, j as int) == trim_end_index(s@, lo as int, to as int),
        decreases j - lo,
    {
        if !char_is_whitespace(s[j - 1]) {
            return j;
        }
        j -= 1;
    }
    j
}

/// `str::trim`.
pub fn trim_chars(s: &[char]) -> (r: Vec<char>)
    ensures
        r@ == trim(s@),
{
    let lo = trim_start_exec(s, 0);
    proof {
        lemma_trim_start_bounds(s@, 0);
    }
    let hi = trim_end_exec(s, lo, s.len());
    proof {
        lemma_trim_end_bounds(s@, lo as int, s@.len() as int);
    }
    slice_range(s, lo, hi)
}

/// `str::trim_end`.
pub fn trim_end_chars(s: &[char]) -> (r: Vec<char>)
    ensures
        r@ == trim_end(s@),
{
    let hi = trim_end_exec(s, 0, s.len());
    proof {
        lemma_trim_end_bounds(s@, 0, s@.len() as int);
    }
    slice_range(s, 0, hi)
}

/// A copy of `s[lo..hi]`.
pub fn slice_range(s: &[char], lo: usize, hi: usize) -> (r: Vec<char>)
    requires
        lo <= hi <= s@.len(),
    ensures
        r@ == s@.subrange(lo as int, hi as int),
{
    let mut out: Vec<char> = Vec::new();
    let mut i = lo;
    while i < hi
        invariant
            lo <= i <= hi,
            hi <= s@.len(),
            out@ == s@.subrange(lo as int, i as int),
        decreases hi - i,
    {
        out.push(s[i]);
        i += 1;
        proof {
            assert(out@ =~= s@.subrange(lo as int, i as int));
        }
    }
    out
}

// ---------------------------------------------------------------------------
// take (chars().take(n)) and padding
// ---------------------------------------------------------------------------

/// `n` copies of `c`.
pub open spec fn repeat(c: char, n: nat) -> Seq<char> {
    Seq::new(n, |i: int| c)
}

pub fn repeat_exec(c: char, n: usize) -> (r: Vec<char>)
    ensures
        r@ == repeat(c, n as nat),
{
    let mut out: Vec<char> = Vec::new();
    let mut i: usize = 0;
    while i < n
        invariant
            i <= n,
            out@ == repeat(c, i as nat),
        decreases n - i,
    {
        out.push(c);
        i += 1;
        proof {
            assert(out@ =~= repeat(c, i as nat));
        }
    }
    out
}

/// `format!("{:<w$}", s)` for a string counted in characters.
pub open spec fn pad_right(s: Seq<char>, w: nat) -> Seq<char> {
    if s.len() >= w {
        s
    } else {
        s + repeat(' ', (w - s.len()) as nat)
    }
}

pub fn pad_right_exec(s: &[char], w: usize) -> (r: Vec<char>)
    ensures
        r@ == pad_right(s@, w as nat),
{
    let mut out: Vec<char> = Vec::new();
    append_chars(&mut out, s);
    if s.len() < w {
        let pad = repeat_exec(' ', w - s.len());
        append_chars(&mut out, pad.as_slice());
    }
    out
}

/// `s.chars().take(n)`.
pub fn take_chars(s: &[char], n: usize) -> (r: Vec<char>)
    ensures
        r@ == s@.take(if n <= s@.len() { n as int } else { s@.len() as int }),
{
    let hi = if n <= s.len() { n } else { s.len() };
    slice_range(s, 0, hi)
}

/// Replace every `from` by `to`.
pub open spec fn replace_char(s: Seq<char>, from: char, to: char) -> Seq<char> {
    Seq::new(s.len(), |i: int| if s[i] == from { to } else { s[i] })
}

pub fn replace_char_exec(s: &[char], from: char, to: char) -> (r: Vec<char>)
    ensures
        r@ == replace_char(s@, from, to),
{
    let mut out: Vec<char> = Vec::new();
    let mut i: usize = 0;
    while i < s.len()
        invariant
            i <= s@.len(),
            out@ == replace_char(s@.take(i as int), from, to),
        decreases s@.len() - i,
    {
        if s[i] == from {
            out.push(to);
        } else {
            out.push(s[i]);
        }
        i += 1;
        proof {
            assert(out@ =~= replace_char(s@.take(i as int), from, to));
        }
    }
    proof {
        assert(s@.take(i as int) =~= s@);
    }
    out
}


// ---------------------------------------------------------------------------
// decimal numbers
// ---------------------------------------------------------------------------

pub open spec fn digit_char(d: nat) -> char {
    if d == 0 {
        '0'
    } else if d == 1 {
        '1'
    } else if d == 2 {
        '2'
    } else if d == 3 {
        '3'
    } else if d == 4 {
        '4'
    } else if d == 5 {
        '5'
    } else if d == 6 {
        '6'
    } else if d == 7 {
        '7'
    } else if d == 8 {
        '8'
    } else {
        '9'
    }
}

/// `format!("{}", n)`.
pub open spec fn decimal(n: nat) -> Seq<char>
    decreases n,
{
    if n < 10 {
        seq![digit_char(n)]
    } else {
        decimal(n / 10).push(digit_char(n % 10))
    }
}

/// The number an ASCII digit string stands for.
pub open spec fn digits_value(s: Seq<char>) -> nat
    decreases s.len(),
{
    if s.len() == 0 {
        0
    } else {
        digits_value(s.drop_last()) * 10 + ((s.last() as u32) - 48) as nat
    }
}

proof fn lemma_zeros_value(z: nat, d: Seq<char>)
    ensures
        digits_value(repeat('0', z) + d) == digits_value(d),
    decreases d.len() + z,
{
    if d.len() == 0 {
        assert(repeat('0', z) + d =~= repeat('0', z));
        if z > 0 {
            assert(repeat('0', z).drop_last() =~= repeat('0', (z - 1) as nat));
            lemma_zeros_value((z - 1) as nat, d);
            assert(repeat('0', (z - 1) as nat) + d =~= repeat('0', (z - 1) as nat));
        }
    } else {
        assert((repeat('0', z) + d).drop_last() =~= repeat('0', z) + d.drop_last());
        lemma_zeros_value(z, d.drop_last());
    }
}

proof fn lemma_digit_char_value(d: nat)
    requires
        d < 10,
    ensures
        (digit_char(d) as u32) - 48 == d,
{
}

pub proof fn lemma_decimal_value(n: nat)
    ensures
        digits_value(decimal(n)) == n,
    decreases n,
{
    let d = decimal(n);
    if n >= 10 {
        lemma_decimal_value(n / 10);
        lemma_digit_char_value(n % 10);
        assert(d.drop_last() =~= decimal(n / 10));
        assert(d.last() == digit_char(n % 10));
        assert((n / 10) * 10 + n % 10 == n);
        assert(digits_value(d) == digits_value(d.drop_last()) * 10 + ((d.last() as u32) - 48) as nat);
        assert(digits_value(d.drop_last()) == n / 10);
        assert(((d.last() as u32) - 48) as nat == n % 10);
    } else {
        lemma_digit_char_value(n);
        assert(d.drop_last() =~= Seq::<char>::empty());
        assert(d.last() == digit_char(n));
        assert(digits_value(d) == digits_value(d.drop_last()) * 10 + ((d.last() as u32) - 48) as nat);
    }
}

/// Decimal text is one or more ASCII digits.
pub proof fn lemma_decimal_digits(n: nat)
    ensures
        decimal(n).len() > 0,
        forall|i: int| 0 <= i < decimal(n).len() ==> is_digit(#[trigger] decimal(n)[i]),
    decreases n,
{
    if n >= 10 {
        lemma_decimal_digits(n / 10);
        assert forall|i: int| 0 <= i < decimal(n).len() implies is_digit(#[trigger] decimal(n)[i]) by {
            if i < decimal(n / 10).len() {
                assert(decimal(n)[i] == decimal(n / 10)[i]);
            }
        }
    }
}

/// Zero-padded decimal text names its number: different numbers never
/// print the same at a given width.
pub proof fn lemma_decimal_padded_injective(n: nat, m: nat, w: nat)
    requires
        decimal_padded(n, w) == decimal_padded(m, w),
    ensures
        n == m,
{
    lemma_decimal_value(n);
    lemma_decimal_value(m);
    let dn = decimal(n);
    let dm = decimal(m);
    if dn.len() < w {
        lemma_zeros_value((w - dn.len()) as nat, dn);
    }
    if dm.len() < w {
        lemma_zeros_value((w - dm.len()) as nat, dm);
    }
}

/// `format!("{:0w$}", n)`: left-padded with zeros to `w` characters.
pub open spec fn decimal_padded(n: nat, w: nat) -> Seq<char> {
    let d = decimal(n);
    if d.len() >= w {
        d
    } else {
        repeat('0', (w - d.len()) as nat) + d
    }
}

fn digit_char_exec(d: u64) -> (c: char)
    requires
        d < 10,
    ensures
        c == digit_char(d as nat),
{
    if d == 0 {
        '0'
    } else if d == 1 {
        '1'
    } else if d == 2 {
        '2'
    } else if d == 3 {
        '3'
    } else if d == 4 {
        '4'
    } else if d == 5 {
        '5'
    } else if d == 6 {
        '6'
    } else if d == 7 {
        '7'
    } else if d == 8 {
        '8'
    } else {
        '9'
    }
}

/// Decimal digits of `n`.
pub fn fmt_u64(n: u64) -> (r: Vec<char>)
    ensures
        r@ == decimal(n as nat),
    decreases n,
{
    if n < 10 {
        let mut v: Vec<char> = Vec::new();
        v.push(digit_char_exec(n));
        proof {
            assert(v@ =~= seq![digit_char(n as nat)]);
        }
        v
    } else {
        let mut v = fmt_u64(n / 10);
        v.push(digit_char_exec(n % 10));
        v
    }
}

/// Decimal digits of a `u128`.
pub fn fmt_u128(n: u128) -> (r: Vec<char>)
    ensures
        r@ == decimal(n as nat),
    decreases n,
{
    if n < 10 {
        fmt_u64(n as u64)
    } else {
        let mut v = fmt_u128(n / 10);
        let d = fmt_u64((n % 10) as u64);
        proof {
            assert(d@ == seq![digit_char((n % 10) as nat)]);
        }
        v.push(d[0]);
        v
    }
}

pub fn fmt_usize(n: usize) -> (r: Vec<char>)
    ensures
        r@ == decimal(n as nat),
{
    fmt_u64(n as u64)
}

/// Append the decimal digits of `n`.
pub fn push_usize(out: &mut Vec<char>, n: usize)
    ensures
        final(out)@ == old(out)@ + decimal(n as nat),
{
    let d = fmt_usize(n);
    append_chars(out, d.as_slice());
}

/// Zero-padded decimal (`{:0w$}`).
pub fn fmt_u64_padded(n: u64, w: usize) -> (r: Vec<char>)
    ensures
        r@ == decimal_padded(n as nat, w as nat),
{
    let d = fmt_u64(n);
    if d.len() >= w {
        d
    } else {
        let mut out = repeat_exec('0', w - d.len());
        append_chars(&mut out, d.as_slice());
        out
    }
}


// ---------------------------------------------------------------------------
// Debug formatting
// ---------------------------------------------------------------------------

/// What `{:?}` writes for a string: the text in double quotes, with the
/// escapes of `str::escape_debug`.
pub uninterp spec fn str_debug_text(s: Seq<char>) -> Seq<char>;

/// What `{:?}` writes for a character: the character in single quotes,
/// with the escapes of `char::escape_debug`.
pub uninterp spec fn char_debug_text(c: char) -> Seq<char>;

/// `<str as Debug>::fmt`, through `format!("{:?}", s)`.
#[verifier::external_body]
pub(crate) fn str_debug(s: &str) -> (r: String)
    ensures
        r@ == str_debug_text(s@),
{
    format!("{:?}", s)
}

/// `<char as Debug>::fmt`, through `format!("{:?}", c)`.
#[verifier::external_body]
pub(crate) fn char_debug(c: char) -> (r: String)
    ensures
        r@ == char_debug_text(c),
{
    format!("{:?}", c)
}


// ---------------------------------------------------------------------------
// Owned copies
// ---------------------------------------------------------------------------

/// A copy of an optional string.
pub fn clone_opt_string(o: &Option<String>) -> (r: Option<String>)
    ensures
        r == *o,
{
    match o {
        Some(s) => Some(s.clone()),
        None => None,
    }
}

/// A copy of a vector of strings.
pub fn clone_strings(v: &Vec<String>) -> (r: Vec<String>)
    ensures
        r@ == v@,
{
    let mut out: Vec<String> = Vec::new();
    let mut i: usize = 0;
    while i < v.len()
        invariant
            i <= v@.len(),
            out@ == v@.take(i as int),
        decreases v@.len() - i,
    {
        out.push(v[i].clone());
        i += 1;
        proof {
            assert(v@.take(i as int) =~= v@.take(i - 1).push(v@[i - 1]));
        }
    }
    proof {
        assert(v@.take(i as int) =~= v@);
    }
    out
}

/// An owned optional string from an optional borrowed one.
pub fn opt_to_string(o: Option<&str>) -> (r: Option<String>)
    ensures
        match o {
            Some(s) => r is Some && r->0@ == s@,
            None => r is None,
        },
{
    match o {
        Some(s) => Some(string_from(s)),
        None => None,
    }
}


// ---------------------------------------------------------------------------
// Collections of strings
// ---------------------------------------------------------------------------

/// The views of a sequence of strings.
pub open spec fn strs(v: Seq<String>) -> Seq<Seq<char>> {
    Seq::new(v.len(), |i: int| v[i]@)
}

/// `acc` with `x` appended unless it already holds it.
pub open spec fn push_new(acc: Seq<Seq<char>>, x: Seq<char>) -> Seq<Seq<char>> {
    if acc.contains(x) {
        acc
    } else {
        acc.push(x)
    }
}

/// The first occurrences of `s`, in order.
pub open spec fn dedup(s: Seq<Seq<char>>) -> Seq<Seq<char>>
    decreases s.len(),
{
    if s.len() == 0 {
        seq![]
    } else {
        push_new(dedup(s.drop_last()), s.last())
    }
}

/// No element occurs twice.
pub open spec fn no_dups(s: Seq<Seq<char>>) -> bool {
    forall|i: int, j: int| 0 <= i < j < s.len() ==> s[i] != s[j]
}

proof fn lemma_contains_push(d: Seq<Seq<char>>, l: Seq<char>, x: Seq<char>)
    ensures
        d.push(l).contains(x) <==> (d.contains(x) || x == l),
{
    if d.contains(x) {
        let k = choose|k: int| 0 <= k < d.len() && d[k] == x;
        assert(d.push(l)[k] == x);
    }
    if x == l {
        assert(d.push(l)[d.len() as int] == x);
    }
    if d.push(l).contains(x) && x != l {
        let k = choose|k: int| 0 <= k < d.push(l).len() && d.push(l)[k] == x;
        assert(k < d.len());
        assert(d[k] == x);
    }
}

/// `dedup` leaves no duplicates and keeps exactly the elements of `s`.
pub proof fn lemma_dedup(s: Seq<Seq<char>>)
    ensures
        no_dups(dedup(s)),
        forall|x: Seq<char>| dedup(s).contains(x) <==> s.contains(x),
    decreases s.len(),
{
    if s.len() > 0 {
        let p = s.drop_last();
        let l = s.last();
        lemma_dedup(p);
        let d = dedup(p);
        assert(s =~= p.push(l));
        assert forall|x: Seq<char>| dedup(s).contains(x) <==> s.contains(x) by {
            lemma_contains_push(p, l, x);
            lemma_contains_push(d, l, x);
        }
    }
}

/// Whether `x` is among `v`.
pub fn contains_chars(v: &Vec<Vec<char>>, x: &[char]) -> (r: bool)
    ensures
        r == views(v@).contains(x@),
{
    let mut i: usize = 0;
    while i < v.len()
        invariant
            i <= v@.len(),
            forall|j: int| 0 <= j < i ==> v@[j]@ != x@,
        decreases v@.len() - i,
    {
        if chars_eq(v[i].as_slice(), x) {
            proof {
                assert(views(v@)[i as int] == x@);
            }
            return true;
        }
        i += 1;
    }
    proof {
        if views(v@).contains(x@) {
            let k = choose|k: int| 0 <= k < views(v@).len() && views(v@)[k] == x@;
            assert(v@[k]@ == x@);
        }
    }
    false
}

/// Append `x` unless it is already present.
pub fn push_new_exec(v: &mut Vec<Vec<char>>, x: Vec<char>)
    ensures
        views(final(v)@) == push_new(views(old(v)@), x@),
{
    if !contains_chars(v, x.as_slice()) {
        let ghost before = views(v@);
        v.push(x);
        proof {
            assert(views(v@) =~= before.push(x@));
        }
    }
}

/// Owned strings from character vectors.
pub fn to_strings(v: &Vec<Vec<char>>) -> (r: Vec<String>)
    ensures
        strs(r@) == views(v@),
{
    let mut out: Vec<String> = Vec::new();
    let mut i: usize = 0;
    while i < v.len()
        invariant
            i <= v@.len(),
            out@.len() == i,
            forall|j: int| 0 <= j < i ==> #[trigger] out@[j]@ == v@[j]@,
        decreases v@.len() - i,
    {
        out.push(string_of(v[i].as_slice()));
        i += 1;
    }
    proof {
        assert(strs(out@) =~= views(v@));
    }
    out
}

/// Character vectors from strings.
pub fn from_strings(v: &[String]) -> (r: Vec<Vec<char>>)
    ensures
        views(r@) == strs(v@),
{
    let mut out: Vec<Vec<char>> = Vec::new();
    let mut i: usize = 0;
    while i < v.len()
        invariant
            i <= v@.len(),
            out@.len() == i,
            forall|j: int| 0 <= j < i ==> #[trigger] out@[j]@ == v@[j]@,
        decreases v@.len() - i,
    {
        out.push(chars_of(v[i].as_str()));
        i += 1;
    }
    proof {
        assert(views(out@) =~= strs(v@));
    }
    out
}


// ---------------------------------------------------------------------------
// Splitting at a class of separator characters (`str::split`)
// ---------------------------------------------------------------------------

/// The separator classes the scanners split on.
#[derive(Clone, Copy)]
pub enum Sep {
    /// `,` or whitespace.
    CommaOrSpace,
    /// Anything but an ASCII letter, digit or `-`.
    NonIdChar,
    /// `-`.
    Dash,
    /// `,`.
    Comma,
    /// Whitespace.
    Space,
}

pub open spec fn is_sep(k: Sep, c: char) -> bool {
    match k {
        Sep::CommaOrSpace => c == ',' || unicode_whitespace(c),
        Sep::NonIdChar => !(is_ascii_alnum(c) || c == '-'),
        Sep::Dash => c == '-',
        Sep::Comma => c == ',',
        Sep::Space => unicode_whitespace(c),
    }
}

pub fn is_sep_exec(k: Sep, c: char) -> (r: bool)
    ensures
        r == is_sep(k, c),
{
    match k {
        Sep::CommaOrSpace => c == ',' || char_is_whitespace(c),
        Sep::NonIdChar => !(is_lower_exec(c) || is_upper_exec(c) || is_digit_exec(c) || c == '-'),
        Sep::Dash => c == '-',
        Sep::Comma => c == ',',
        Sep::Space => char_is_whitespace(c),
    }
}

/// Position of the first separator at or after `from` (or `s.len()`).
pub open spec fn next_sep(s: Seq<char>, k: Sep, from: int) -> int
    decreases s.len() - from,
{
    if from >= s.len() {
        s.len() as int
    } else if is_sep(k, s[from]) {
        from
    } else {
        next_sep(s, k, from + 1)
    }
}

pub proof fn lemma_next_sep(s: Seq<char>, k: Sep, from: int)
    requires
        0 <= from <= s.len(),
    ensures
        from <= next_sep(s, k, from) <= s.len(),
    decreases s.len() - from,
{
    if from < s.len() && !is_sep(k, s[from]) {
        lemma_next_sep(s, k, from + 1);
    }
}

proof fn lemma_next_sep_at(s: Seq<char>, k: Sep, from: int, e: int)
    requires
        0 <= from <= e <= s.len(),
        forall|t: int| from <= t < e ==> !is_sep(k, s[t]),
        e == s.len() || is_sep(k, s[e]),
    ensures
        next_sep(s, k, from) == e,
    decreases e - from,
{
    if from < e {
        lemma_next_sep_at(s, k, from + 1, e);
    }
}

/// The pieces of `s[from..]` between separators (empty pieces included).
pub open spec fn split_from(s: Seq<char>, k: Sep, from: nat) -> Seq<Seq<char>>
    decreases s.len() - from,
{
    let e = next_sep(s, k, from as int);
    if from > s.len() {
        seq![]
    } else if e >= s.len() {
        seq![s.subrange(from as int, s.len() as int)]
    } else {
        proof {
            lemma_next_sep(s, k, from as int);
        }
        seq![s.subrange(from as int, e)] + split_from(s, k, (e + 1) as nat)
    }
}

/// `str::split` at the separators of class `k`.
pub open spec fn split(s: Seq<char>, k: Sep) -> Seq<Seq<char>> {
    split_from(s, k, 0)
}

/// The pieces of `s` between separators of class `k`.
pub fn split_exec(s: &[char], k: Sep) -> (r: Vec<Vec<char>>)
    ensures
        views(r@) == split(s@, k),
{
    let mut out: Vec<Vec<char>> = Vec::new();
    let mut cur: Vec<char> = Vec::new();
    let mut start: usize = 0;
    let mut i: usize = 0;
    proof {
        assert(views(out@) + split_from(s@, k, 0) =~= split(s@, k));
    }
    while i < s.len()
        invariant
            start <= i <= s@.len(),
            cur@ == s@.subrange(start as int, i as int),
            forall|t: int| start <= t < i ==> !is_sep(k, s@[t]),
            views(out@) + split_from(s@, k, start as nat) == split(s@, k),
        decreases s@.len() - i,
    {
        if is_sep_exec(k, s[i]) {
            proof {
                lemma_next_sep_at(s@, k, start as int, i as int);
            }
            let ghost before = views(out@);
            out.push(cur);
            proof {
                assert(views(out@) =~= before + seq![s@.subrange(start as int, i as int)]);
            }
            cur = Vec::new();
            i += 1;
            start = i;
            proof {
                assert(cur@ =~= s@.subrange(start as int, i as int));
            }
        } else {
            cur.push(s[i]);
            i += 1;
            proof {
                assert(cur@ =~= s@.subrange(start as int, i as int));
            }
        }
    }
    proof {
        lemma_next_sep_at(s@, k, start as int, i as int);
    }
    let ghost before = views(out@);
    out.push(cur);
    proof {
        assert(views(out@) =~= before + seq![s@.subrange(start as int, s@.len() as int)]);
    }
    out
}


// ---------------------------------------------------------------------------
// ASCII case
// ---------------------------------------------------------------------------

/// `char::to_ascii_lowercase`.
pub open spec fn ascii_lower(c: char) -> char {
    if is_upper(c) {
        ((c as u8) + 32) as char
    } else {
        c
    }
}

pub fn ascii_lower_exec(c: char) -> (r: char)
    ensures
        r == ascii_lower(c),
{
    if is_upper_exec(c) {
        ((c as u8) + 32) as char
    } else {
        c
    }
}

/// `str::eq_ignore_ascii_case`.
pub open spec fn eq_ignore_ascii_case(a: Seq<char>, b: Seq<char>) -> bool {
    a.len() == b.len() && forall|i: int| 0 <= i < a.len() ==> ascii_lower(#[trigger] a[i]) == ascii_lower(b[i])
}

pub fn eq_ignore_ascii_case_exec(a: &[char], b: &[char]) -> (r: bool)
    ensures
        r == eq_ignore_ascii_case(a@, b@),
{
    if a.len() != b.len() {
        return false;
    }
    let mut i: usize = 0;
    while i < a.len()
        invariant
            a@.len() == b@.len(),
            i <= a@.len(),
            forall|j: int| 0 <= j < i ==> ascii_lower(#[trigger] a@[j]) == ascii_lower(b@[j]),
        decreases a@.len() - i,
    {
        if ascii_lower_exec(a[i]) != ascii_lower_exec(b[i]) {
            return false;
        }
        i += 1;
    }
    true
}


// ---------------------------------------------------------------------------
// Lexicographic order
// ---------------------------------------------------------------------------

/// Lexicographic order by code point, which is the order `Ord` gives
/// strings (their UTF-8 bytes compare in code-point order).
pub open spec fn lex_le(a: Seq<char>, b: Seq<char>) -> bool
    decreases a.len(),
{
    if a.len() == 0 {
        true
    } else if b.len() == 0 {
        false
    } else if (a[0] as u32) < (b[0] as u32) {
        true
    } else if (a[0] as u32) > (b[0] as u32) {
        false
    } else {
        lex_le(a.drop_first(), b.drop_first())
    }
}

/// `s` is in ascending lexicographic order.
pub open spec fn sorted_lex(s: Seq<Seq<char>>) -> bool {
    forall|i: int, j: int| 0 <= i < j < s.len() ==> lex_le(#[trigger] s[i], #[trigger] s[j])
}

/// `<[String]>::sort`: the same strings, in ascending order.
#[verifier::external_body]
pub(crate) fn sort_strings(v: &mut Vec<String>)
    ensures
        strs(final(v)@).to_multiset() == strs(old(v)@).to_multiset(),
        sorted_lex(strs(final(v)@)),
{
    v.sort();
}


/// The distinct strings of `items`, in ascending order.
pub fn sorted_distinct(items: &Vec<Vec<char>>) -> (r: Vec<String>)
    ensures
        sorted_lex(strs(r@)),
        no_dups(strs(r@)),
        forall|x: Seq<char>| strs(r@).contains(x) <==> views(items@).contains(x),
{
    let mut uniq: Vec<Vec<char>> = Vec::new();
    let mut i: usize = 0;
    while i < items.len()
        invariant
            i <= items@.len(),
            views(uniq@) == dedup(views(items@).take(i as int)),
        decreases items@.len() - i,
    {
        proof {
            assert(views(items@).take(i + 1).drop_last() =~= views(items@).take(i as int));
            assert(views(items@).take(i + 1).last() == items@[i as int]@);
        }
        push_new_exec(&mut uniq, items[i].clone());
        i += 1;
    }
    proof {
        assert(views(items@).take(i as int) =~= views(items@));
        lemma_dedup(views(items@));
    }
    let mut keys = to_strings(&uniq);
    let ghost before = strs(keys@);
    sort_strings(&mut keys);
    proof {
        let after = strs(keys@);
        broadcast use vstd::seq_lib::group_to_multiset_ensures;
        before.lemma_multiset_has_no_duplicates();
        assert forall|x: Seq<char>| after.to_multiset().contains(x) implies after.to_multiset().count(x) == 1 by {
        }
        after.lemma_multiset_has_no_duplicates_conv();
        assert forall|x: Seq<char>| after.contains(x) <==> views(items@).contains(x) by {
            assert(after.contains(x) <==> after.to_multiset().count(x) > 0);
            assert(before.contains(x) <==> before.to_multiset().count(x) > 0);
        }
        assert forall|a: int, b: int| 0 <= a < b < after.len() implies after[a] != after[b] by {
        }
    }
    keys
}

/// How many times `x` occurs in `s`.
pub open spec fn occurrences(s: Seq<Seq<char>>, x: Seq<char>) -> nat
    decreases s.len(),
{
    if s.len() == 0 {
        0
    } else {
        occurrences(s.drop_last(), x) + if s.last() == x { 1nat } else { 0nat }
    }
}

/// Each distinct string of `r`'s keys is a distinct item of `items`, in
/// ascending order, with the number of times it occurs.
pub open spec fn is_tally(items: Seq<Seq<char>>, keys: Seq<Seq<char>>, counts: Seq<nat>) -> bool {
    &&& keys.len() == counts.len()
    &&& sorted_lex(keys)
    &&& no_dups(keys)
    &&& forall|x: Seq<char>| keys.contains(x) <==> items.contains(x)
    &&& forall|i: int| 0 <= i < keys.len() ==> counts[i] == occurrences(items, #[trigger] keys[i])
}

/// Two strings each at most the other are equal.
pub proof fn lemma_lex_antisymmetric(a: Seq<char>, b: Seq<char>)
    requires
        lex_le(a, b),
        lex_le(b, a),
    ensures
        a == b,
    decreases a.len(),
{
    if a.len() > 0 && b.len() > 0 {
        lemma_lex_antisymmetric(a.drop_first(), b.drop_first());
        assert(a[0] as u32 == b[0] as u32);
        vstd::utf8::char_u32_cast(a[0], a[0] as u32);
        vstd::utf8::char_u32_cast(b[0], b[0] as u32);
        assert(a[0] == b[0]);
        assert(a =~= seq![a[0]] + a.drop_first());
        assert(b =~= seq![b[0]] + b.drop_first());
    } else if a.len() == 0 && b.len() == 0 {
        assert(a =~= b);
    }
}

/// A set of strings has one ascending arrangement without repeats.
pub proof fn lemma_sorted_distinct_unique(k1: Seq<Seq<char>>, k2: Seq<Seq<char>>)
    requires
        sorted_lex(k1),
        sorted_lex(k2),
        no_dups(k1),
        no_dups(k2),
        forall|x: Seq<char>| k1.contains(x) <==> k2.contains(x),
    ensures
        k1 == k2,
    decreases k1.len(),
{
    if k1.len() == 0 {
        if k2.len() > 0 {
            assert(k2.contains(k2[0]));
        }
        assert(k1 =~= k2);
    } else {
        assert(k1.contains(k1[0]));
        let j = choose|j: int| 0 <= j < k2.len() && k2[j] == k1[0];
        assert(k2.contains(k2[0]));
        let i = choose|i: int| 0 <= i < k1.len() && k1[i] == k2[0];
        if j > 0 {
            assert(lex_le(k2[0], k2[j]));
        }
        if i > 0 {
            assert(lex_le(k1[0], k1[i]));
        }
        if i == 0 || j == 0 {
        } else {
            lemma_lex_antisymmetric(k1[0], k2[0]);
        }
        let t1 = k1.drop_first();
        let t2 = k2.drop_first();
        assert forall|x: Seq<char>| t1.contains(x) <==> t2.contains(x) by {
            if t1.contains(x) {
                let a = choose|a: int| 0 <= a < t1.len() && t1[a] == x;
                assert(k1[a + 1] == x);
                assert(k1.contains(x));
                let b = choose|b: int| 0 <= b < k2.len() && k2[b] == x;
                assert(x != k1[0]);
                assert(b != 0);
                assert(t2[b - 1] == x);
            }
            if t2.contains(x) {
                let a = choose|a: int| 0 <= a < t2.len() && t2[a] == x;
                assert(k2[a + 1] == x);
                assert(k2.contains(x));
                let b = choose|b: int| 0 <= b < k1.len() && k1[b] == x;
                assert(x != k2[0]);
                assert(b != 0);
                assert(t1[b - 1] == x);
            }
        }
        assert forall|a: int, b: int| 0 <= a < b < t1.len() implies lex_le(#[trigger] t1[a], #[trigger] t1[b]) by {
            assert(t1[a] == k1[a + 1] && t1[b] == k1[b + 1]);
        }
        assert forall|a: int, b: int| 0 <= a < b < t2.len() implies lex_le(#[trigger] t2[a], #[trigger] t2[b]) by {
            assert(t2[a] == k2[a + 1] && t2[b] == k2[b + 1]);
        }
        assert forall|a: int, b: int| 0 <= a < b < t1.len() implies t1[a] != t1[b] by {
            assert(t1[a] == k1[a + 1] && t1[b] == k1[b + 1]);
        }
        assert forall|a: int, b: int| 0 <= a < b < t2.len() implies t2[a] != t2[b] by {
            assert(t2[a] == k2[a + 1] && t2[b] == k2[b + 1]);
        }
        lemma_sorted_distinct_unique(t1, t2);
        assert(k1 =~= seq![k1[0]] + t1);
        assert(k2 =~= seq![k2[0]] + t2);
    }
}

/// The tally of a sequence of strings is unique.
pub proof fn lemma_tally_unique(items: Seq<Seq<char>>, k1: Seq<Seq<char>>, c1: Seq<nat>, k2: Seq<Seq<char>>, c2: Seq<nat>)
    requires
        is_tally(items, k1, c1),
        is_tally(items, k2, c2),
    ensures
        k1 == k2,
        c1 == c2,
{
    lemma_sorted_distinct_unique(k1, k2);
    assert forall|i: int| 0 <= i < c1.len() implies c1[i] == c2[i] by {
        assert(c1[i] == occurrences(items, k1[i]));
    }
    assert(c1 =~= c2);
}

proof fn lemma_occurrences_bound(s: Seq<Seq<char>>, x: Seq<char>)
    ensures
        occurrences(s, x) <= s.len(),
    decreases s.len(),
{
    if s.len() > 0 {
        lemma_occurrences_bound(s.drop_last(), x);
    }
}

fn count_of(items: &Vec<Vec<char>>, x: &str) -> (r: usize)
    ensures
        r == occurrences(views(items@), x@),
{
    let mut n: usize = 0;
    let mut i: usize = 0;
    while i < items.len()
        invariant
            i <= items@.len(),
            n == occurrences(views(items@).take(i as int), x@),
            n <= i,
        decreases items@.len() - i,
    {
        proof {
            assert(views(items@).take(i + 1).drop_last() =~= views(items@).take(i as int));
            assert(views(items@).take(i + 1).last() == items@[i as int]@);
        }
        if chars_eq_str(items[i].as_slice(), x) {
            n = n + 1;
        }
        i += 1;
    }
    proof {
        assert(views(items@).take(i as int) =~= views(items@));
    }
    n
}

/// Count the distinct strings of `items`, in ascending order (what a
/// `BTreeMap<String, usize>` tally iterates).
pub fn tally(items: &Vec<Vec<char>>) -> (r: Vec<(String, usize)>)
    ensures
        is_tally(
            views(items@),
            r@.map_values(|p: (String, usize)| p.0@),
            r@.map_values(|p: (String, usize)| p.1 as nat),
        ),
{
    let keys = sorted_distinct(items);
    let mut out: Vec<(String, usize)> = Vec::new();
    let mut i: usize = 0;
    while i < keys.len()
        invariant
            i <= keys@.len(),
            out@.len() == i,
            forall|j: int| 0 <= j < i ==> (#[trigger] out@[j]).0@ == keys@[j]@ && out@[j].1 == occurrences(
                views(items@),
                keys@[j]@,
            ),
        decreases keys@.len() - i,
    {
        let c = count_of(items, keys[i].as_str());
        out.push((string_from(keys[i].as_str()), c));
        i += 1;
    }
    proof {
        let ks = out@.map_values(|p: (String, usize)| p.0@);
        assert(ks =~= strs(keys@));
    }
    out
}

// ---------------------------------------------------------------------------
// UTF-8 lengths
// ---------------------------------------------------------------------------

/// What `str::len` returns for a string with these characters: the length
/// of its UTF-8 encoding.
pub open spec fn utf8_len(t: Seq<char>) -> usize {
    vstd::utf8::encode_utf8(t).len() as usize
}

/// The UTF-8 length of one character.
pub open spec fn char_width(c: char) -> nat {
    vstd::utf8::encode_utf8(seq![c]).len()
}

pub proof fn lemma_utf8_push(s: Seq<char>, c: char)
    ensures
        vstd::utf8::encode_utf8(s.push(c)).len() == vstd::utf8::encode_utf8(s).len() + char_width(c),
    decreases s.len(),
{
    if s.len() == 0 {
        assert(s.push(c) =~= seq![c]);
    } else {
        assert(s.push(c).drop_first() =~= s.drop_first().push(c));
        lemma_utf8_push(s.drop_first(), c);
        assert(s.push(c)[0] == s[0]);
    }
}

/// The UTF-8 length of `c`: 1, 2, 3 or 4 bytes by code point range.
pub fn char_width_exec(c: char) -> (r: usize)
    ensures
        r == char_width(c),
        1 <= r <= 4,
{
    proof {
        vstd::utf8::char_is_scalar(c);
        assert(vstd::utf8::encode_utf8(seq![c]) =~= vstd::utf8::encode_scalar(c as u32) + vstd::utf8::encode_utf8(seq![c].drop_first()));
        assert(seq![c].drop_first() =~= Seq::<char>::empty());
    }
    let v = c as u32;
    if v < 0x80 {
        1
    } else if v < 0x800 {
        2
    } else if v < 0x10000 {
        3
    } else {
        4
    }
}

/// The longest prefix of `s` whose UTF-8 encoding fits in `m` bytes (what
/// `str::floor_char_boundary` cuts at).
pub open spec fn prefix_within(s: Seq<char>, m: nat) -> nat
    decreases s.len(),
{
    if s.len() == 0 {
        0
    } else if vstd::utf8::encode_utf8(s).len() <= m {
        s.len()
    } else {
        prefix_within(s.drop_last(), m)
    }
}


pub proof fn lemma_char_width_pos(c: char)
    ensures
        1 <= char_width(c) <= 4,
{
    vstd::utf8::char_is_scalar(c);
    assert(vstd::utf8::encode_utf8(seq![c]) =~= vstd::utf8::encode_scalar(c as u32) + vstd::utf8::encode_utf8(seq![c].drop_first()));
    assert(seq![c].drop_first() =~= Seq::<char>::empty());
}

/// The number of leading characters of `cs` whose UTF-8 encoding fits in
/// `m` bytes (see [`prefix_within`]).
pub fn prefix_within_exec(cs: &[char], m: usize) -> (r: usize)
    ensures
        r == prefix_within(cs@, m as nat),
        r <= cs@.len(),
{
    let mut acc: usize = 0;
    let mut i: usize = 0;
    proof {
        assert(cs@.take(0) =~= Seq::<char>::empty());
    }
    while i < cs.len()
        invariant
            i <= cs@.len(),
            acc == vstd::utf8::encode_utf8(cs@.take(i as int)).len(),
            acc <= m,
        ensures
            i <= cs@.len(),
            acc == vstd::utf8::encode_utf8(cs@.take(i as int)).len(),
            acc <= m,
            i == cs@.len() || vstd::utf8::encode_utf8(cs@.take(i + 1)).len() > m,
        decreases cs@.len() - i,
    {
        let w = char_width_exec(cs[i]);
        proof {
            lemma_utf8_push(cs@.take(i as int), cs@[i as int]);
            assert(cs@.take(i as int).push(cs@[i as int]) =~= cs@.take(i + 1));
        }
        if w > m - acc {
            break;
        }
        acc = acc + w;
        i += 1;
    }
    proof {
        lemma_prefix_within(cs@, m as nat, i as nat);
    }
    i
}

/// A prefix of `s` whose encoding fits in `m` bytes while one more
/// character would not is the one `prefix_within` picks.
pub proof fn lemma_prefix_within(s: Seq<char>, m: nat, i: nat)
    requires
        i <= s.len(),
        vstd::utf8::encode_utf8(s.take(i as int)).len() <= m,
        i == s.len() || vstd::utf8::encode_utf8(s.take(i + 1 as int)).len() > m,
    ensures
        prefix_within(s, m) == i,
    decreases s.len() - i,
{
    if i == s.len() {
        assert(s.take(i as int) =~= s);
        if s.len() > 0 {
        }
    } else {
        assert forall|j: nat| i < j <= s.len() implies vstd::utf8::encode_utf8(#[trigger] s.take(j as int)).len() > m by {
            lemma_prefix_too_long(s, m, i + 1, j);
        }
        lemma_prefix_walk(s, m, i, s.len());
        assert(s.take(s.len() as int) =~= s);
    }
}

proof fn lemma_prefix_too_long(s: Seq<char>, m: nat, j: nat, k: nat)
    requires
        j <= k <= s.len(),
        vstd::utf8::encode_utf8(s.take(j as int)).len() > m,
    ensures
        vstd::utf8::encode_utf8(s.take(k as int)).len() > m,
    decreases k - j,
{
    if j < k {
        lemma_utf8_push(s.take(j as int), s[j as int]);
        assert(s.take(j as int).push(s[j as int]) =~= s.take(j + 1 as int));
        lemma_prefix_too_long(s, m, j + 1, k);
    }
}

proof fn lemma_prefix_walk(s: Seq<char>, m: nat, i: nat, k: nat)
    requires
        i < k <= s.len(),
        vstd::utf8::encode_utf8(s.take(i as int)).len() <= m,
        forall|j: nat| i < j <= k ==> vstd::utf8::encode_utf8(#[trigger] s.take(j as int)).len() > m,
    ensures
        prefix_within(s.take(k as int), m) == i,
    decreases k - i,
{
    let t = s.take(k as int);
    assert(t.drop_last() =~= s.take(k - 1));
    assert(vstd::utf8::encode_utf8(s.take(k as int)).len() > m);
    assert(t.len() > 0);
    assert(prefix_within(t, m) == prefix_within(s.take(k - 1), m));
    if k - 1 > i {
        lemma_prefix_walk(s, m, i, (k - 1) as nat);
    } else {
        let u = s.take(i as int);
        assert(u.len() == i);
    }
}

} // verus!
