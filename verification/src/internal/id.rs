//! Generators of internal IDs: a time-and-random one for production and a
//! counting one that gives predictable output in tests.

use vstd::prelude::*;

use crate::internal::id_alloc::random_u64;
use crate::text::{
    append_chars, chars_of, decimal_padded, fmt_u64_padded, push_str, repeat, repeat_exec,
    string_of,
};

verus! {

/// A source of new internal IDs (opaque strings).
pub trait IdGenerator {
    /// The next ID.
    fn next_id(&mut self) -> String;
}

// ---------------------------------------------------------------------------
// Lower-case hexadecimal
// ---------------------------------------------------------------------------

pub open spec fn hex_digit(d: nat) -> char {
    if d < 10 {
        crate::text::digit_char(d)
    } else if d == 10 {
        'a'
    } else if d == 11 {
        'b'
    } else if d == 12 {
        'c'
    } else if d == 13 {
        'd'
    } else if d == 14 {
        'e'
    } else {
        'f'
    }
}

/// `format!("{:x}", n)`.
pub open spec fn hex(n: nat) -> Seq<char>
    decreases n,
{
    if n < 16 {
        seq![hex_digit(n)]
    } else {
        hex(n / 16).push(hex_digit(n % 16))
    }
}

/// `format!("{:0w$x}", n)`: left-padded with zeros to `w` characters.
pub open spec fn hex_padded(n: nat, w: nat) -> Seq<char> {
    let d = hex(n);
    if d.len() >= w {
        d
    } else {
        repeat('0', (w - d.len()) as nat) + d
    }
}

fn hex_digit_exec(d: u128) -> (c: char)
    requires
        d < 16,
    ensures
        c == hex_digit(d as nat),
{
    if d < 10 {
        let v = crate::text::fmt_u64(d as u64);
        v[0]
    } else if d == 10 {
        'a'
    } else if d == 11 {
        'b'
    } else if d == 12 {
        'c'
    } else if d == 13 {
        'd'
    } else if d == 14 {
        'e'
    } else {
        'f'
    }
}

fn fmt_hex(n: u128) -> (r: Vec<char>)
    ensures
        r@ == hex(n as nat),
    decreases n,
{
    if n < 16 {
        let mut v: Vec<char> = Vec::new();
        v.push(hex_digit_exec(n));
        proof {
            assert(v@ =~= seq![hex_digit(n as nat)]);
        }
        v
    } else {
        let mut v = fmt_hex(n / 16);
        v.push(hex_digit_exec(n % 16));
        v
    }
}

fn fmt_hex_padded(n: u128, w: usize) -> (r: Vec<char>)
    ensures
        r@ == hex_padded(n as nat, w as nat),
{
    let d = fmt_hex(n);
    if d.len() >= w {
        d
    } else {
        let mut out = repeat_exec('0', w - d.len());
        append_chars(&mut out, d.as_slice());
        out
    }
}

// ---------------------------------------------------------------------------
// ULID-style IDs
// ---------------------------------------------------------------------------

/// A ULID-style ID: the time in milliseconds as 13 hex digits, `-`, and
/// the random part as 16 hex digits.
pub open spec fn ulid_text(millis: u128, rand: u64) -> Seq<char> {
    hex_padded(millis as nat, 13) + "-"@ + hex_padded(rand as nat, 16)
}

/// The ID for a given time (milliseconds since the Unix epoch) and random
/// part.
pub fn ulid_from_parts(millis: u128, rand: u64) -> (r: String)
    ensures
        r@ == ulid_text(millis, rand),
{
    let mut v = fmt_hex_padded(millis, 13);
    push_str(&mut v, "-");
    let r = fmt_hex_padded(rand as u128, 16);
    append_chars(&mut v, r.as_slice());
    string_of(v.as_slice())
}

/// Generates ULID-style IDs (time-ordered, with a random part).
pub struct UlidGenerator;

impl IdGenerator for UlidGenerator {
    /// A new ID from the current time (0 when the clock reads before the
    /// Unix epoch) and a random `u64`.
    fn next_id(&mut self) -> (r: String)
        ensures
            exists|millis: u128, rand: u64| r@ == ulid_text(millis, rand),
    {
        let millis = match crate::internal::clock::system_millis() {
            Some(m) => m,
            None => 0,
        };
        let rand = random_u64();
        ulid_from_parts(millis, rand)
    }
}

// ---------------------------------------------------------------------------
// Counting IDs
// ---------------------------------------------------------------------------

/// The ID a counting generator gives for `n`: the prefix, `-`, and `n`
/// zero-padded to four digits.
pub open spec fn sequential_text(prefix: Seq<char>, n: u64) -> Seq<char> {
    prefix + "-"@ + decimal_padded(n as nat, 4)
}

/// Counts up from 1: `"test-0001"`, `"test-0002"`, ...
pub struct SequentialIdGenerator {
    prefix: String,
    counter: u64,
}

impl SequentialIdGenerator {
    /// The prefix every ID starts with.
    pub closed spec fn prefix_view(&self) -> Seq<char> {
        self.prefix@
    }

    /// The number the next ID carries.
    pub closed spec fn counter_view(&self) -> u64 {
        self.counter
    }

    pub fn new(prefix: &str) -> (r: Self)
        ensures
            r.prefix_view() == prefix@,
            r.counter_view() == 1,
    {
        SequentialIdGenerator { prefix: crate::text::string_from(prefix), counter: 1 }
    }
}

impl IdGenerator for SequentialIdGenerator {
    /// The ID for the current count; the count then steps by one (wrapping
    /// at `u64::MAX`, as an atomic add does).
    fn next_id(&mut self) -> (r: String)
        ensures
            r@ == sequential_text(old(self).prefix_view(), old(self).counter_view()),
            final(self).prefix_view() == old(self).prefix_view(),
            final(self).counter_view() == (if old(self).counter_view() < u64::MAX {
                (old(self).counter_view() + 1) as u64
            } else {
                0u64
            }),
    {
        let n = self.counter;
        self.counter = if n < u64::MAX { n + 1 } else { 0 };
        let mut v = chars_of(self.prefix.as_str());
        push_str(&mut v, "-");
        let d = fmt_u64_padded(n, 4);
        append_chars(&mut v, d.as_slice());
        string_of(v.as_slice())
    }
}

/// Two IDs of a counting generator differ whenever their counts do: the
/// generator gives a fresh ID on each call until the count wraps.
pub proof fn lemma_sequential_ids_distinct(prefix: Seq<char>, n: u64, m: u64)
    requires
        n != m,
    ensures
        sequential_text(prefix, n) != sequential_text(prefix, m),
{
    if sequential_text(prefix, n) == sequential_text(prefix, m) {
        reveal_strlit("-");
        let k: int = prefix.len() as int + 1;
        assert(sequential_text(prefix, n).skip(k) =~= decimal_padded(n as nat, 4));
        assert(sequential_text(prefix, m).skip(k) =~= decimal_padded(m as nat, 4));
        crate::text::lemma_decimal_padded_injective(n as nat, m as nat, 4);
    }
}

} // verus!
