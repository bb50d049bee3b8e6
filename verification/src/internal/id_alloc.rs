//! Thread ID allocation and recognition.
//!
//! Current IDs are `KIND-xxxxxxxx`: a kind prefix and an 8-character
//! base36 token cut from a SHA-256 digest. Legacy IDs are `KIND-NNNN`.

use vstd::prelude::*;

use sha2::{Digest, Sha256};
use std::collections::hash_map::{DefaultHasher, RandomState};
use std::hash::{BuildHasher, Hasher};

use crate::internal::thread::{ThreadKind, kind_id_prefix, kind_from_prefix};
use crate::text::{chars_of, string_of, push_str, is_base36, is_digit, is_lower_exec, is_digit_exec, append_chars};
use vstd::utf8::encode_utf8;
use vstd::string::StringSliceAdditionalSpecFns;

verus! {

/// The SHA-256 digest of a byte string.
pub uninterp spec fn sha256_digest(data: Seq<u8>) -> Seq<u8>;

/// `<Sha256 as Digest>::digest`: the 32-byte SHA-256 digest of `data`.
#[verifier::external_body]
pub(crate) fn sha256(data: &[u8]) -> (r: Vec<u8>)
    ensures
        r@ == sha256_digest(data@),
        r@.len() == 32,
{
    Sha256::digest(data).to_vec()
}

/// The base36 digit of `d % 36`: `0-9` then `a-z`.
pub open spec fn base36_digit(d: u8) -> char {
    let m = d % 36;
    if m < 10 {
        ((48 + m) as u8) as char
    } else {
        ((87 + m) as u8) as char
    }
}

/// The first `len` bytes (or all, if fewer) as base36 digits.
pub open spec fn base36_text(bytes: Seq<u8>, len: nat) -> Seq<char> {
    let n = if len < bytes.len() { len } else { bytes.len() };
    Seq::new(n, |i: int| base36_digit(bytes[i]))
}

proof fn lemma_base36_digit_is_base36(d: u8)
    ensures
        is_base36(base36_digit(d)),
{
    let m = d % 36;
    assert(m < 36);
}

fn base36_digit_exec(d: u8) -> (c: char)
    ensures
        c == base36_digit(d),
{
    let m: u8 = d % 36;
    if m < 10 {
        (48 + m) as char
    } else {
        (87 + m) as char
    }
}

/// Encode bytes as base36 `[0-9a-z]`: one digit per byte, for the first
/// `len` bytes.
pub fn base36_encode(bytes: &[u8], len: usize) -> (r: String)
    ensures
        r@ == base36_text(bytes@, len as nat),
        forall|i: int| 0 <= i < r@.len() ==> is_base36(#[trigger] r@[i]),
{
    let n = if len < bytes.len() { len } else { bytes.len() };
    let mut out: Vec<char> = Vec::new();
    let mut i: usize = 0;
    while i < n
        invariant
            n <= bytes@.len(),
            n == (if len < bytes@.len() { len as nat } else { bytes@.len() }),
            i <= n,
            out@ =~= Seq::new(i as nat, |j: int| base36_digit(bytes@[j])),
        decreases n - i,
    {
        out.push(base36_digit_exec(bytes[i]));
        i += 1;
    }
    proof {
        assert forall|i: int| 0 <= i < out@.len() implies is_base36(#[trigger] out@[i]) by {
            lemma_base36_digit_is_base36(bytes@[i]);
        }
    }
    string_of(out.as_slice())
}

/// The hashed input of a thread token: actor, timestamp, title (as
/// UTF-8) and the nonce, in that order.
pub open spec fn token_input(actor: Seq<char>, title: Seq<char>, timestamp: Seq<char>, nonce: Seq<u8>) -> Seq<u8> {
    encode_utf8(actor) + encode_utf8(timestamp) + encode_utf8(title) + nonce
}

/// The 8-character token of a thread ID.
pub open spec fn token_for(actor: Seq<char>, title: Seq<char>, timestamp: Seq<char>, nonce: Seq<u8>) -> Seq<char> {
    base36_text(sha256_digest(token_input(actor, title, timestamp, nonce)), 8)
}

/// `KIND-token`.
pub open spec fn thread_id_for(kind: ThreadKind, actor: Seq<char>, title: Seq<char>, timestamp: Seq<char>, nonce: Seq<u8>) -> Seq<char> {
    kind_id_prefix(kind) + "-"@ + token_for(actor, title, timestamp, nonce)
}

fn append_bytes(out: &mut Vec<u8>, b: &[u8])
    ensures
        final(out)@ == old(out)@ + b@,
{
    let ghost start = out@;
    let mut i: usize = 0;
    while i < b.len()
        invariant
            i <= b@.len(),
            out@ == start + b@.take(i as int),
        decreases b@.len() - i,
    {
        out.push(b[i]);
        i += 1;
        proof {
            assert(b@.take(i as int) =~= b@.take(i - 1).push(b@[i - 1]));
        }
    }
    proof {
        assert(b@.take(i as int) =~= b@);
    }
}

/// Compute the 8-character base36 token.
fn compute_token(actor: &str, title: &str, timestamp: &str, nonce: &[u8]) -> (r: String)
    ensures
        r@ == token_for(actor@, title@, timestamp@, nonce@),
        r@.len() == 8,
        forall|i: int| 0 <= i < r@.len() ==> is_base36(#[trigger] r@[i]),
{
    let mut data: Vec<u8> = Vec::new();
    append_bytes(&mut data, actor.as_bytes());
    append_bytes(&mut data, timestamp.as_bytes());
    append_bytes(&mut data, title.as_bytes());
    append_bytes(&mut data, nonce);
    proof {
        assert(data@ =~= token_input(actor@, title@, timestamp@, nonce@));
    }
    let hash = sha256(data.as_slice());
    base36_encode(hash.as_slice(), 8)
}

/// An opaque thread ID with a given nonce (deterministic).
pub fn alloc_thread_id_with_nonce(kind: ThreadKind, actor: &str, title: &str, timestamp: &str, nonce: &[u8]) -> (r: String)
    ensures
        r@ == thread_id_for(kind, actor@, title@, timestamp@, nonce@),
        token_for(actor@, title@, timestamp@, nonce@).len() == 8,
        forall|i: int| 0 <= i < 8 ==> is_base36(#[trigger] token_for(actor@, title@, timestamp@, nonce@)[i]),
{
    let token = compute_token(actor, title, timestamp, nonce);
    let mut v = chars_of(kind.id_prefix());
    push_str(&mut v, "-");
    push_str(&mut v, token.as_str());
    string_of(v.as_slice())
}

/// `RandomState::new` of std: a hash builder with fresh random keys.
/// Nothing is stated of the keys.
#[verifier::external_body]
fn random_state() -> RandomState {
    RandomState::new()
}

/// `BuildHasher::build_hasher` of std on a `RandomState`: a hasher keyed
/// by that state. Nothing is stated of its keys.
#[verifier::external_body]
fn keyed_hasher(state: &RandomState) -> DefaultHasher {
    BuildHasher::build_hasher(state)
}

/// A `u64` drawn from a freshly seeded `RandomState` hasher.
pub(crate) fn random_u64() -> u64 {
    let state = random_state();
    let h = keyed_hasher(&state);
    h.finish()
}

/// Eight bytes of system entropy (little-endian).
fn random_nonce() -> (r: Vec<u8>)
    ensures
        r@.len() == 8,
{
    let x = random_u64();
    let mut v: Vec<u8> = Vec::new();
    let mut k: u64 = 0;
    while k < 8
        invariant
            k <= 8,
            v@.len() == k,
        decreases 8 - k,
    {
        v.push(((x >> (8 * k)) & 0xff) as u8);
        k += 1;
    }
    v
}

fn all_digits(t: &str) -> (r: bool)
    ensures
        r == (forall|i: int| 0 <= i < t@.len() ==> is_digit(#[trigger] t@[i])),
{
    let cs = chars_of(t);
    let mut i: usize = 0;
    while i < cs.len()
        invariant
            i <= cs@.len(),
            cs@ == t@,
            forall|j: int| 0 <= j < i ==> is_digit(#[trigger] cs@[j]),
        decreases cs@.len() - i,
    {
        if !is_digit_exec(cs[i]) {
            return false;
        }
        i += 1;
    }
    true
}

/// An opaque thread ID, salted with a fresh 8-byte nonce. The ID is always
/// valid: a nonce whose token is all digits (the grammar keeps those for
/// sequential numbers) is drawn again, up to 64 times; should every draw
/// give one, the last token's final digit becomes `a`.
pub fn alloc_thread_id(kind: ThreadKind, actor: &str, title: &str, timestamp: &str) -> (r: String)
    ensures
        opaque_id(r@),
        exists|nonce: Seq<u8>|
            nonce.len() == 8 && (r@ == thread_id_for(kind, actor@, title@, timestamp@, nonce) || r@
                == thread_id_for(kind, actor@, title@, timestamp@, nonce).update(11, 'a')),
{
    let mut tries: u32 = 0;
    loop
        invariant
            tries < 64,
        decreases 64 - tries,
    {
        let nonce = random_nonce();
        let token = compute_token(actor, title, timestamp, nonce.as_slice());
        if !all_digits(token.as_str()) || tries == 63 {
            let mut tv = chars_of(token.as_str());
            let forced = all_digits(token.as_str());
            if forced {
                tv.set(7, 'a');
            }
            let mut v = chars_of(kind.id_prefix());
            push_str(&mut v, "-");
            append_chars(&mut v, tv.as_slice());
            proof {
                let t = token_for(actor@, title@, timestamp@, nonce@);
                reveal_strlit("ASK");
                reveal_strlit("RFC");
                reveal_strlit("DEC");
                reveal_strlit("JOB");
                reveal_strlit("-");
                assert(kind_id_prefix(kind).len() == 3);
                if forced {
                    assert(is_base36('a') && !is_digit('a'));
                    assert(v@ =~= thread_id_for(kind, actor@, title@, timestamp@, nonce@).update(11, 'a'));
                    let id = v@;
                    assert(id =~= kind_id_prefix(kind) + "-"@ + tv@);
                    assert(id[0] != '-' && id[1] != '-' && id[2] != '-' && id[3] == '-');
                    assert(find_char(id, '-', 3) == Some(3nat));
                    assert(find_char(id, '-', 2) == Some(3nat));
                    assert(find_char(id, '-', 1) == Some(3nat));
                    assert(find_char(id, '-', 0) == Some(3nat));
                    assert(id.take(3) =~= kind_id_prefix(kind));
                    assert(id.skip(4) =~= tv@);
                    assert(tv@[7] == 'a');
                    assert(is_token(tv@));
                } else {
                    assert(v@ =~= thread_id_for(kind, actor@, title@, timestamp@, nonce@));
                    lemma_allocated_id_is_opaque(kind, actor@, title@, timestamp@, nonce@);
                }
            }
            return string_of(v.as_slice());
        }
        tries += 1;
    }
}

// ---------------------------------------------------------------------------
// Recognition
// ---------------------------------------------------------------------------

/// Index of the first `c` at or after `i`.
pub open spec fn find_char(s: Seq<char>, c: char, i: nat) -> Option<nat>
    decreases s.len() - i,
{
    if i >= s.len() {
        None
    } else if s[i as int] == c {
        Some(i)
    } else {
        find_char(s, c, i + 1)
    }
}

/// `str::split_once('-')`: the text before and after the first `-`.
pub open spec fn split_dash(s: Seq<char>) -> Option<(Seq<char>, Seq<char>)> {
    match find_char(s, '-', 0) {
        Some(i) => Some((s.take(i as int), s.skip(i + 1 as int))),
        None => None,
    }
}

/// An 8-character base36 token that is not all digits.
pub open spec fn is_token(t: Seq<char>) -> bool {
    t.len() == 8 && (forall|i: int| 0 <= i < t.len() ==> is_base36(#[trigger] t[i]))
        && !(forall|i: int| 0 <= i < t.len() ==> is_digit(#[trigger] t[i]))
}

/// Four ASCII digits.
pub open spec fn is_seq_number(t: Seq<char>) -> bool {
    t.len() == 4 && forall|i: int| 0 <= i < t.len() ==> is_digit(#[trigger] t[i])
}

/// `KIND-xxxxxxxx`.
pub open spec fn opaque_id(s: Seq<char>) -> bool {
    match split_dash(s) {
        Some((p, t)) => kind_from_prefix(p) is Some && is_token(t),
        None => false,
    }
}

/// `KIND-NNNN`.
pub open spec fn sequential_id(s: Seq<char>) -> bool {
    match split_dash(s) {
        Some((p, t)) => kind_from_prefix(p) is Some && is_seq_number(t),
        None => false,
    }
}

/// An allocated thread ID is recognized as an opaque ID, unless its
/// hash-derived token happens to be all digits (the grammar keeps those
/// for sequential numbers).
pub proof fn lemma_allocated_id_is_opaque(
    kind: ThreadKind,
    actor: Seq<char>,
    title: Seq<char>,
    timestamp: Seq<char>,
    nonce: Seq<u8>,
)
    requires
        token_for(actor, title, timestamp, nonce).len() == 8,
        forall|i: int| 0 <= i < 8 ==> is_base36(#[trigger] token_for(actor, title, timestamp, nonce)[i]),
        !(forall|i: int| 0 <= i < 8 ==> is_digit(#[trigger] token_for(actor, title, timestamp, nonce)[i])),
    ensures
        opaque_id(thread_id_for(kind, actor, title, timestamp, nonce)),
{
    reveal_strlit("ASK");
    reveal_strlit("RFC");
    reveal_strlit("DEC");
    reveal_strlit("JOB");
    reveal_strlit("-");
    let p = kind_id_prefix(kind);
    let t = token_for(actor, title, timestamp, nonce);
    let id = thread_id_for(kind, actor, title, timestamp, nonce);
    assert(id =~= p + "-"@ + t);
    assert(p.len() == 3);
    assert(id[0] != '-' && id[1] != '-' && id[2] != '-');
    assert(id[3] == '-');
    assert(find_char(id, '-', 3) == Some(3nat));
    assert(find_char(id, '-', 2) == Some(3nat));
    assert(find_char(id, '-', 1) == Some(3nat));
    assert(find_char(id, '-', 0) == Some(3nat));
    assert(id.take(3) =~= p);
    assert(id.skip(4) =~= t);
}

pub(crate) fn find_char_exec(s: &[char], c: char) -> (r: Option<usize>)
    ensures
        match r {
            Some(i) => find_char(s@, c, 0) == Some(i as nat) && i < s@.len(),
            None => find_char(s@, c, 0) is None,
        },
{
    let mut i: usize = 0;
    while i < s.len()
        invariant
            i <= s@.len(),
            find_char(s@, c, i as nat) == find_char(s@, c, 0),
        decreases s@.len() - i,
    {
        if s[i] == c {
            return Some(i);
        }
        i += 1;
    }
    None
}

/// Whether a token is 8 base36 characters, not all digits.
fn token_ok(t: &[char]) -> (r: bool)
    ensures
        r == is_token(t@),
{
    if t.len() != 8 {
        return false;
    }
    let mut all_base36 = true;
    let mut all_digits = true;
    let mut i: usize = 0;
    while i < t.len()
        invariant
            i <= t@.len(),
            all_base36 == (forall|j: int| 0 <= j < i ==> is_base36(#[trigger] t@[j])),
            all_digits == (forall|j: int| 0 <= j < i ==> is_digit(#[trigger] t@[j])),
        decreases t@.len() - i,
    {
        let c = t[i];
        if !(is_lower_exec(c) || is_digit_exec(c)) {
            all_base36 = false;
        }
        if !is_digit_exec(c) {
            all_digits = false;
        }
        i += 1;
    }
    all_base36 && !all_digits
}

fn seq_number_ok(t: &[char]) -> (r: bool)
    ensures
        r == is_seq_number(t@),
{
    if t.len() != 4 {
        return false;
    }
    let mut i: usize = 0;
    while i < t.len()
        invariant
            i <= t@.len(),
            forall|j: int| 0 <= j < i ==> is_digit(#[trigger] t@[j]),
        decreases t@.len() - i,
    {
        if !is_digit_exec(t[i]) {
            return false;
        }
        i += 1;
    }
    true
}

/// Split at the first `-`.
fn split_dash_exec(s: &str) -> (r: Option<(Vec<char>, Vec<char>)>)
    ensures
        match r {
            Some((p, t)) => split_dash(s@) == Some((p@, t@)),
            None => split_dash(s@) is None,
        },
{
    let cs = chars_of(s);
    match find_char_exec(cs.as_slice(), '-') {
        Some(i) => {
            let mut p: Vec<char> = Vec::new();
            let mut j: usize = 0;
            while j < i
                invariant
                    i < cs@.len(),
                    j <= i,
                    p@ =~= cs@.take(j as int),
                decreases i - j,
            {
                p.push(cs[j]);
                j += 1;
            }
            let mut t: Vec<char> = Vec::new();
            assert(i < cs.len());
            let mut k: usize = i + 1;
            while k < cs.len()
                invariant
                    i < cs@.len(),
                    i + 1 <= k <= cs@.len(),
                    t@ =~= cs@.subrange(i + 1, k as int),
                decreases cs@.len() - k,
            {
                t.push(cs[k]);
                k += 1;
            }
            proof {
                assert(t@ =~= cs@.skip(i + 1));
            }
            Some((p, t))
        },
        None => None,
    }
}

/// Whether `id` is an opaque thread ID: `KIND-xxxxxxxx`, a known kind
/// prefix and 8 base36 characters that are not all digits.
pub fn is_opaque_id(id: &str) -> (r: bool)
    ensures
        r == opaque_id(id@),
{
    match split_dash_exec(id) {
        Some((p, t)) => {
            let ps = string_of(p.as_slice());
            ThreadKind::from_id_prefix(ps.as_str()).is_some() && token_ok(t.as_slice())
        },
        None => false,
    }
}

/// Whether `id` is a legacy sequential thread ID: `KIND-NNNN`.
pub fn is_sequential_id(id: &str) -> (r: bool)
    ensures
        r == sequential_id(id@),
{
    match split_dash_exec(id) {
        Some((p, t)) => {
            let ps = string_of(p.as_slice());
            ThreadKind::from_id_prefix(ps.as_str()).is_some() && seq_number_ok(t.as_slice())
        },
        None => false,
    }
}

/// Whether `s` is a bare token: 8 base36 characters, not all digits.
pub fn is_bare_token(s: &str) -> (r: bool)
    ensures
        r == is_token(s@),
{
    let cs = chars_of(s);
    token_ok(cs.as_slice())
}

/// Whether `id` is a thread ID of either format, opaque or sequential.
pub fn is_valid_thread_id(id: &str) -> (r: bool)
    ensures
        r == (opaque_id(id@) || sequential_id(id@)),
{
    is_opaque_id(id) || is_sequential_id(id)
}

} // verus!
