//! Commit-message scanning for the advisory commit-msg hook: comment
//! stripping and thread-ID extraction.

use vstd::prelude::*;

use crate::internal::id_alloc::{is_seq_number, is_token};
use crate::internal::thread::kind_from_prefix;
use crate::text::{
    chars_of, lines, lines_of, join, join_to_string, views, starts_with, starts_with_exec,
    is_lower, is_digit, is_lower_exec, is_digit_exec, unicode_alphanumeric, char_is_alphanumeric,
    dedup, push_new, push_new_exec, to_strings, strs, no_dups, lemma_dedup, slice_range,
};

verus! {

/// Result of checking a commit message for thread references.
pub struct HookCheckResult {
    pub found_ids: Vec<String>,
    pub missing_ids: Vec<String>,
}

impl HookCheckResult {
    /// Whether some referenced thread is missing.
    pub fn has_errors(&self) -> (r: bool)
        ensures
            r == (self.missing_ids@.len() > 0),
    {
        self.missing_ids.len() > 0
    }
}

// ---------------------------------------------------------------------------
// Comment stripping
// ---------------------------------------------------------------------------

/// The scissors line Git writes above a verbose diff.
pub open spec fn scissors(cc: char) -> Seq<char> {
    seq![cc] + " --- >8 ---"@
}

/// The lines before the first scissors line, minus those that start with
/// the comment character.
pub open spec fn kept_lines(ls: Seq<Seq<char>>, cc: char) -> Seq<Seq<char>>
    decreases ls.len(),
{
    if ls.len() == 0 {
        seq![]
    } else if starts_with(ls[0], scissors(cc)) {
        seq![]
    } else if ls[0].len() > 0 && ls[0][0] == cc {
        kept_lines(ls.drop_first(), cc)
    } else {
        seq![ls[0]] + kept_lines(ls.drop_first(), cc)
    }
}

/// Law: the lines a stripped message keeps are lines of the message, in
/// their order, and none of them is a comment line.
pub proof fn lemma_kept_lines(ls: Seq<Seq<char>>, cc: char)
    ensures
        kept_lines(ls, cc).len() <= ls.len(),
        forall|i: int|
            0 <= i < kept_lines(ls, cc).len() ==> !(#[trigger] kept_lines(ls, cc)[i].len() > 0
                && kept_lines(ls, cc)[i][0] == cc),
        exists|idx: Seq<int>|
            #![trigger idx.len()]
            idx.len() == kept_lines(ls, cc).len() && (forall|i: int|
                0 <= i < idx.len() ==> 0 <= #[trigger] idx[i] < ls.len() && ls[idx[i]] == kept_lines(ls, cc)[i])
                && (forall|i: int, j: int| 0 <= i < j < idx.len() ==> #[trigger] idx[i] < #[trigger] idx[j]),
    decreases ls.len(),
{
    if ls.len() > 0 {
        lemma_kept_lines(ls.drop_first(), cc);
        let k = kept_lines(ls.drop_first(), cc);
        let idx0 = choose|idx: Seq<int>|
            #![trigger idx.len()]
            idx.len() == k.len() && (forall|i: int|
                0 <= i < idx.len() ==> 0 <= #[trigger] idx[i] < ls.drop_first().len() && ls.drop_first()[idx[i]] == k[i])
                && (forall|i: int, j: int| 0 <= i < j < idx.len() ==> #[trigger] idx[i] < #[trigger] idx[j]);
        let shifted = Seq::new(idx0.len(), |i: int| idx0[i] + 1);
        if starts_with(ls[0], scissors(cc)) {
            let e = Seq::<int>::empty();
            assert(e.len() == kept_lines(ls, cc).len());
        } else if ls[0].len() > 0 && ls[0][0] == cc {
            assert(kept_lines(ls, cc) == k);
            assert(shifted.len() == kept_lines(ls, cc).len());
        } else {
            let r = seq![ls[0]] + k;
            assert(kept_lines(ls, cc) == r);
            let idx = seq![0int] + shifted;
            assert forall|i: int| 0 <= i < r.len() implies !(#[trigger] r[i].len() > 0 && r[i][0] == cc) by {
                if i > 0 {
                    assert(r[i] == k[i - 1]);
                }
            }
            assert forall|i: int| 0 <= i < idx.len() implies 0 <= #[trigger] idx[i] < ls.len() && ls[idx[i]] == r[i] by {
                if i > 0 {
                    assert(idx[i] == idx0[i - 1] + 1);
                    assert(r[i] == k[i - 1]);
                }
            }
            assert forall|i: int, j: int| 0 <= i < j < idx.len() implies #[trigger] idx[i] < #[trigger] idx[j] by {
                if i > 0 {
                    assert(idx[i] == idx0[i - 1] + 1);
                }
                assert(idx[j] == idx0[j - 1] + 1);
            }
            assert(idx.len() == kept_lines(ls, cc).len());
        }
    } else {
        let e = Seq::<int>::empty();
        assert(e.len() == kept_lines(ls, cc).len());
    }
}

/// A line that is not a comment line for `cc`.
pub open spec fn not_comment(cc: char) -> spec_fn(Seq<char>) -> bool {
    |l: Seq<char>| !(l.len() > 0 && l[0] == cc)
}

/// The index of the first scissors line of `ls`, or its length.
pub open spec fn scissors_index(ls: Seq<Seq<char>>, cc: char) -> nat
    decreases ls.len(),
{
    if ls.len() == 0 {
        0
    } else if starts_with(ls[0], scissors(cc)) {
        0
    } else {
        1 + scissors_index(ls.drop_first(), cc)
    }
}

/// Law: the lines a stripped message keeps are exactly the lines before
/// the first scissors line that are not comment lines, in order; the
/// scissors line is the first line that starts with the scissors marker.
pub proof fn lemma_kept_lines_filter(ls: Seq<Seq<char>>, cc: char)
    ensures
        kept_lines(ls, cc) == ls.take(scissors_index(ls, cc) as int).filter(not_comment(cc)),
        scissors_index(ls, cc) <= ls.len(),
        scissors_index(ls, cc) < ls.len() ==> starts_with(ls[scissors_index(ls, cc) as int], scissors(cc)),
        forall|i: int| 0 <= i < scissors_index(ls, cc) ==> !starts_with(#[trigger] ls[i], scissors(cc)),
    decreases ls.len(),
{
    reveal_with_fuel(Seq::filter, 2);
    if ls.len() == 0 {
        assert(ls.take(0) =~= Seq::<Seq<char>>::empty());
    } else if starts_with(ls[0], scissors(cc)) {
        assert(ls.take(0) =~= Seq::<Seq<char>>::empty());
    } else {
        let t = ls.drop_first();
        lemma_kept_lines_filter(t, cc);
        let n = scissors_index(t, cc) as int;
        assert(ls.take(n + 1) =~= seq![ls[0]] + t.take(n));
        Seq::filter_distributes_over_add(seq![ls[0]], t.take(n), not_comment(cc));
        assert(seq![ls[0]].drop_last() =~= Seq::<Seq<char>>::empty());
        if ls[0].len() > 0 && ls[0][0] == cc {
            assert(seq![ls[0]].filter(not_comment(cc)) =~= Seq::<Seq<char>>::empty());
            assert(kept_lines(ls, cc) =~= t.take(n).filter(not_comment(cc)));
        } else {
            assert(seq![ls[0]].filter(not_comment(cc)) =~= seq![ls[0]]);
        }
        assert forall|i: int| 0 <= i < scissors_index(ls, cc) implies !starts_with(#[trigger] ls[i], scissors(cc)) by {
            if i > 0 {
                assert(ls[i] == t[i - 1]);
            }
        }
        if scissors_index(ls, cc) < ls.len() {
            assert(ls[n + 1] == t[n]);
        }
    }
}

/// A commit message with comment lines and the scissors section removed.
pub open spec fn stripped_message(m: Seq<char>, cc: char) -> Seq<char> {
    join(kept_lines(lines(m), cc), "\n"@)
}

/// The kept lines of `m` (see [`kept_lines`]).
pub fn kept_message_lines(m: &str, cc: char) -> (r: Vec<Vec<char>>)
    ensures
        views(r@) == kept_lines(lines(m@), cc),
{
    let cs = chars_of(m);
    let ls = lines_of(cs.as_slice());
    let mut sc: Vec<char> = Vec::new();
    sc.push(cc);
    let tail = chars_of(" --- >8 ---");
    crate::text::append_chars(&mut sc, tail.as_slice());
    proof {
        assert(sc@ =~= scissors(cc));
    }
    let mut out: Vec<Vec<char>> = Vec::new();
    let mut i: usize = 0;
    proof {
        assert(views(ls@).skip(0) =~= views(ls@));
        assert(views(out@) + kept_lines(views(ls@), cc) =~= kept_lines(views(ls@), cc));
    }
    while i < ls.len()
        invariant
            i <= ls@.len(),
            sc@ == scissors(cc),
            views(ls@) == lines(m@),
            views(out@) + kept_lines(views(ls@).skip(i as int), cc) == kept_lines(lines(m@), cc),
        decreases ls@.len() - i,
    {
        let ghost rest = views(ls@).skip(i as int);
        proof {
            assert(rest[0] == ls@[i as int]@);
            assert(rest.drop_first() =~= views(ls@).skip(i + 1));
        }
        let line = &ls[i];
        if starts_with_exec(line.as_slice(), sc.as_slice()) {
            proof {
                assert(views(out@) + kept_lines(rest, cc) =~= views(out@));
            }
            return out;
        }
        if line.len() > 0 && line[0] == cc {
            i += 1;
        } else {
            let ghost before = views(out@);
            out.push(ls[i].clone());
            proof {
                assert(views(out@) =~= before.push(rest[0]));
                assert(before + kept_lines(rest, cc) =~= views(out@) + kept_lines(rest.drop_first(), cc));
            }
            i += 1;
        }
    }
    proof {
        assert(views(ls@).skip(i as int) =~= Seq::<Seq<char>>::empty());
        assert(views(out@) + Seq::<Seq<char>>::empty() =~= views(out@));
    }
    out
}

/// Strip Git comment lines and the scissors section from a commit message.
pub fn strip_comments(message: &str, comment_char: char) -> (r: String)
    ensures
        r@ == stripped_message(message@, comment_char),
{
    let kept = kept_message_lines(message, comment_char);
    join_to_string(&kept, "\n")
}

// ---------------------------------------------------------------------------
// Thread-ID extraction
// ---------------------------------------------------------------------------

/// The prefixes an ID may carry, in the order they are tried.
pub open spec fn known_prefixes() -> Seq<Seq<char>> {
    seq!["ASK"@, "ISSUE"@, "RFC"@, "DEC"@, "JOB"@, "TASK"@]
}

/// A character that continues a word: alphanumeric or `_`.
pub open spec fn word_char(c: char) -> bool {
    unicode_alphanumeric(c) || c == '_'
}

/// End of the run of `[0-9a-z]` starting at `from`.
pub open spec fn token_end(c: Seq<char>, from: int) -> int
    decreases c.len() - from,
{
    if from >= c.len() {
        c.len() as int
    } else if is_digit(c[from]) || is_lower(c[from]) {
        token_end(c, from + 1)
    } else {
        from
    }
}

/// End of a thread ID with prefix `p` starting at `i`, if one is there:
/// `p`, `-`, then a maximal `[0-9a-z]` run that is four digits or an
/// eight-character token, not followed by a word character.
pub open spec fn id_with_prefix_at(c: Seq<char>, i: int, p: Seq<char>) -> Option<int> {
    let ts = i + p.len() + 1;
    let end = token_end(c, ts);
    if i + p.len() + 1 + 4 > c.len() {
        None
    } else if c.subrange(i, i + p.len() as int) != p || c[i + p.len()] != '-' {
        None
    } else if end < c.len() && word_char(c[end]) {
        None
    } else if is_seq_number(c.subrange(ts, end)) || is_token(c.subrange(ts, end)) {
        Some(end)
    } else {
        None
    }
}

/// The first prefix (from index `k` of [`known_prefixes`]) that yields an
/// ID at `i`.
pub open spec fn id_from_prefix(c: Seq<char>, i: int, k: nat) -> Option<int>
    decreases 6 - k,
{
    if k >= 6 {
        None
    } else {
        match id_with_prefix_at(c, i, known_prefixes()[k as int]) {
            Some(e) => Some(e),
            None => id_from_prefix(c, i, k + 1),
        }
    }
}

/// End of the thread ID that starts at `i`, if one starts there: `i` must
/// begin a word.
pub open spec fn id_at(c: Seq<char>, i: int) -> Option<int> {
    if i > 0 && word_char(c[i - 1]) {
        None
    } else {
        id_from_prefix(c, i, 0)
    }
}

/// The IDs starting before position `n`, in order, repeats included.
pub open spec fn ids_upto(c: Seq<char>, n: nat) -> Seq<Seq<char>>
    decreases n,
{
    if n == 0 {
        seq![]
    } else {
        let prev = ids_upto(c, (n - 1) as nat);
        match id_at(c, n - 1) {
            Some(e) => prev.push(c.subrange(n - 1, e)),
            None => prev,
        }
    }
}

/// The thread IDs of a message, each once, in order of first appearance.
pub open spec fn extracted_ids(m: Seq<char>) -> Seq<Seq<char>> {
    dedup(ids_upto(m, m.len()))
}

/// A thread ID that starts at `i` spells `x`.
pub open spec fn id_spelled_at(c: Seq<char>, i: int, x: Seq<char>) -> bool {
    match id_at(c, i) {
        Some(e) => x == c.subrange(i, e),
        None => false,
    }
}

proof fn lemma_ids_upto_contains(c: Seq<char>, n: nat)
    ensures
        forall|x: Seq<char>|
            ids_upto(c, n).contains(x) <==> exists|i: int| 0 <= i < n && #[trigger] id_spelled_at(c, i, x),
    decreases n,
{
    if n > 0 {
        let m = (n - 1) as nat;
        lemma_ids_upto_contains(c, m);
        let prev = ids_upto(c, m);
        assert forall|x: Seq<char>|
            ids_upto(c, n).contains(x) <==> exists|i: int| 0 <= i < n && #[trigger] id_spelled_at(c, i, x) by {
            match id_at(c, n - 1) {
                Some(e) => {
                    let v = prev.push(c.subrange(n - 1, e));
                    if v.contains(x) {
                        let k = choose|k: int| 0 <= k < v.len() && v[k] == x;
                        if k < prev.len() {
                            assert(prev[k] == x);
                            assert(prev.contains(x));
                        } else {
                            assert(id_spelled_at(c, n - 1, x));
                        }
                    }
                    if exists|i: int| 0 <= i < n && #[trigger] id_spelled_at(c, i, x) {
                        let i = choose|i: int| 0 <= i < n && #[trigger] id_spelled_at(c, i, x);
                        if i < m {
                            assert(prev.contains(x));
                            let k = choose|k: int| 0 <= k < prev.len() && prev[k] == x;
                            assert(v[k] == x);
                        } else {
                            assert(v[v.len() - 1] == x);
                        }
                    }
                },
                None => {
                    if exists|i: int| 0 <= i < n && #[trigger] id_spelled_at(c, i, x) {
                        let i = choose|i: int| 0 <= i < n && #[trigger] id_spelled_at(c, i, x);
                        assert(i != n - 1);
                        assert(prev.contains(x));
                    }
                    if prev.contains(x) {
                        let i = choose|i: int| 0 <= i < m && #[trigger] id_spelled_at(c, i, x);
                    }
                },
            }
        }
    }
}

/// Law: the extracted IDs are distinct, and a string is among them
/// exactly when a thread ID spells it somewhere in the message (see
/// [`id_at`]: a known prefix, `-`, four digits or an eight-character
/// token, at word boundaries).
pub proof fn lemma_extracted_ids(m: Seq<char>)
    ensures
        no_dups(extracted_ids(m)),
        forall|x: Seq<char>|
            #![trigger extracted_ids(m).contains(x)]
            extracted_ids(m).contains(x) <==> exists|i: int| 0 <= i < m.len() && #[trigger] id_spelled_at(m, i, x),
{
    let ids = ids_upto(m, m.len());
    lemma_dedup(ids);
    lemma_ids_upto_contains(m, m.len());
    assert forall|x: Seq<char>|
        #![trigger extracted_ids(m).contains(x)]
        extracted_ids(m).contains(x) <==> exists|i: int| 0 <= i < m.len() && #[trigger] id_spelled_at(m, i, x) by {
        assert(extracted_ids(m).contains(x) <==> ids.contains(x));
    }
}

proof fn lemma_prefix_facts(k: int)
    requires
        0 <= k < 6,
    ensures
        0 < known_prefixes()[k].len() <= 5,
        forall|t: int| 0 <= t < known_prefixes()[k].len() ==> #[trigger] known_prefixes()[k][t] != '-',
{
    reveal_strlit("ASK");
    reveal_strlit("ISSUE");
    reveal_strlit("RFC");
    reveal_strlit("DEC");
    reveal_strlit("JOB");
    reveal_strlit("TASK");
}

fn prefix_text(k: usize) -> (r: &'static str)
    requires
        k < 6,
    ensures
        r@ == known_prefixes()[k as int],
{
    if k == 0 {
        "ASK"
    } else if k == 1 {
        "ISSUE"
    } else if k == 2 {
        "RFC"
    } else if k == 3 {
        "DEC"
    } else if k == 4 {
        "JOB"
    } else {
        "TASK"
    }
}

fn word_char_exec(c: char) -> (r: bool)
    ensures
        r == word_char(c),
{
    char_is_alphanumeric(c) || c == '_'
}

fn token_end_exec(c: &[char], from: usize) -> (r: usize)
    requires
        from <= c@.len(),
    ensures
        r == token_end(c@, from as int),
        from <= r <= c@.len(),
        forall|k: int| from <= k < r ==> is_digit(#[trigger] c@[k]) || is_lower(c@[k]),
{
    let mut j = from;
    while j < c.len() && (is_digit_exec(c[j]) || is_lower_exec(c[j]))
        invariant
            from <= j <= c@.len(),
            token_end(c@, j as int) == token_end(c@, from as int),
            forall|k: int| from <= k < j ==> is_digit(#[trigger] c@[k]) || is_lower(c@[k]),
        decreases c@.len() - j,
    {
        j += 1;
    }
    j
}

fn all_digits(c: &[char], lo: usize, hi: usize) -> (r: bool)
    requires
        lo <= hi <= c@.len(),
    ensures
        r == (forall|k: int| 0 <= k < hi - lo ==> is_digit(#[trigger] c@.subrange(lo as int, hi as int)[k])),
{
    let mut j = lo;
    while j < hi
        invariant
            lo <= j <= hi <= c@.len(),
            forall|k: int| 0 <= k < j - lo ==> is_digit(#[trigger] c@.subrange(lo as int, hi as int)[k]),
        decreases hi - j,
    {
        if !is_digit_exec(c[j]) {
            proof {
                assert(c@.subrange(lo as int, hi as int)[j - lo] == c@[j as int]);
            }
            return false;
        }
        j += 1;
    }
    true
}

fn id_with_prefix_exec(c: &[char], i: usize, k: usize) -> (r: Option<usize>)
    requires
        i < c@.len(),
        k < 6,
    ensures
        match r {
            Some(e) => id_with_prefix_at(c@, i as int, known_prefixes()[k as int]) == Some(e as int)
                && i < e <= c@.len(),
            None => id_with_prefix_at(c@, i as int, known_prefixes()[k as int]) is None,
        },
{
    proof {
        lemma_prefix_facts(k as int);
    }
    let p = chars_of(prefix_text(k));
    let ghost pp = known_prefixes()[k as int];
    let n = c.len();
    if p.len() + 5 > n - i {
        return None;
    }
    let mut j: usize = 0;
    while j < p.len()
        invariant
            j <= p@.len(),
            k < 6,
            p@ == known_prefixes()[k as int],
            i + p@.len() + 5 <= c@.len(),
            c@.len() == c.len(),
            forall|t: int| 0 <= t < j ==> c@[i + t] == p@[t],
        decreases p@.len() - j,
    {
        if c[i + j] != p[j] {
            proof {
                assert(c@.subrange(i as int, i + p@.len())[j as int] != p@[j as int]);
            }
            return None;
        }
        j += 1;
    }
    proof {
        assert(c@.subrange(i as int, i + p@.len()) =~= p@);
    }
    if c[i + p.len()] != '-' {
        return None;
    }
    let ts = i + p.len() + 1;
    let end = token_end_exec(c, ts);
    if end < n && word_char_exec(c[end]) {
        return None;
    }
    let len = end - ts;
    let digits = all_digits(c, ts, end);
    proof {
        assert forall|t: int| 0 <= t < end - ts implies
            (is_digit(#[trigger] c@.subrange(ts as int, end as int)[t]) || is_lower(c@.subrange(ts as int, end as int)[t])) by {
            assert(c@.subrange(ts as int, end as int)[t] == c@[ts + t]);
        }
    }
    let is_seq = len == 4 && digits;
    let is_opaque = len == 8 && !digits;
    proof {
        let tok = c@.subrange(ts as int, end as int);
        assert(tok.len() == len);
        if len == 8 {
            assert((forall|t: int| 0 <= t < tok.len() ==> crate::text::is_base36(#[trigger] tok[t])));
        }
    }
    if is_seq || is_opaque {
        Some(end)
    } else {
        None
    }
}

fn id_at_exec(c: &[char], i: usize) -> (r: Option<usize>)
    requires
        i < c@.len(),
    ensures
        match r {
            Some(e) => id_at(c@, i as int) == Some(e as int) && i < e <= c@.len(),
            None => id_at(c@, i as int) is None,
        },
{
    if i > 0 && word_char_exec(c[i - 1]) {
        return None;
    }
    let mut k: usize = 0;
    while k < 6
        invariant
            i < c@.len(),
            k <= 6,
            !(i > 0 && word_char(c@[i - 1])),
            id_from_prefix(c@, i as int, k as nat) == id_at(c@, i as int),
        decreases 6 - k,
    {
        match id_with_prefix_exec(c, i, k) {
            Some(e) => {
                return Some(e);
            },
            None => {
                k += 1;
            },
        }
    }
    None
}

/// Extract thread IDs (legacy `KIND-NNNN` and opaque `KIND-xxxxxxxx`)
/// from a commit message: each starts a word, ends a word, and is kept
/// once, in order of first appearance (see [`extracted_ids`]).
pub fn extract_thread_ids(message: &str) -> (r: Vec<String>)
    ensures
        strs(r@) == extracted_ids(message@),
{
    let c = chars_of(message);
    let mut found: Vec<Vec<char>> = Vec::new();
    let mut i: usize = 0;
    while i < c.len()
        invariant
            c@ == message@,
            i <= c@.len(),
            views(found@) == dedup(ids_upto(c@, i as nat)),
        decreases c@.len() - i,
    {
        match id_at_exec(c.as_slice(), i) {
            Some(e) => {
                let id = slice_range(c.as_slice(), i, e);
                push_new_exec(&mut found, id);
                proof {
                    let prev = ids_upto(c@, i as nat);
                    assert(ids_upto(c@, (i + 1) as nat) == prev.push(c@.subrange(i as int, e as int)));
                    assert(prev.push(c@.subrange(i as int, e as int)).drop_last() =~= prev);
                }
            },
            None => {
                proof {
                    assert(ids_upto(c@, (i + 1) as nat) == ids_upto(c@, i as nat));
                }
            },
        }
        i += 1;
    }
    to_strings(&found)
}

/// The extracted IDs are distinct.
pub proof fn lemma_extracted_ids_distinct(m: Seq<char>)
    ensures
        no_dups(extracted_ids(m)),
{
    lemma_dedup(ids_upto(m, m.len()));
}

} // verus!
