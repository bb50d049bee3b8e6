//! Choosing which two body revisions `git forum diff --rev` compares.

use vstd::prelude::*;

use crate::internal::commands::shared::{first_occurrence, lemma_first_occurrence};
use crate::internal::error::ForumError;
use crate::internal::github_export::{parse_u64, parse_u64_exec};
use crate::text::{append_chars, chars_of, decimal, find_seq, push_str, push_usize, slice_range, string_of};

verus! {

/// `usize::from_str`: an optional `+` and decimal digits whose value fits.
pub open spec fn parse_usize(s: Seq<char>) -> Option<usize> {
    match parse_u64(s) {
        Some(v) => if v <= usize::MAX {
            Some(v as usize)
        } else {
            None
        },
        None => None,
    }
}

pub open spec fn no_such_revision(n: usize, max: usize) -> Seq<char> {
    "revision "@ + decimal(n as nat) + " does not exist; latest revision is "@ + decimal(max as nat)
}

/// The revision pair a `--rev` argument names: `N` is `N-1` against `N`,
/// `N..M` is `N` against `M`; each must be at most `max`, and a pair must
/// name two different revisions. `Err` holds the message.
pub open spec fn rev_pair(rev: Seq<char>, max: usize) -> Result<(usize, usize), Seq<char>> {
    match first_occurrence(rev, ".."@) {
        Some(i) => {
            let left = rev.take(i);
            let right = rev.skip(i + 2);
            match parse_usize(left) {
                None => Err("invalid revision number '"@ + left + "' in --rev "@ + rev),
                Some(from) => match parse_usize(right) {
                    None => Err("invalid revision number '"@ + right + "' in --rev "@ + rev),
                    Some(to) => if from > max {
                        Err(no_such_revision(from, max))
                    } else if to > max {
                        Err(no_such_revision(to, max))
                    } else if from == to {
                        Err("cannot diff revision "@ + decimal(from as nat) + " against itself"@)
                    } else {
                        Ok((from, to))
                    },
                },
            }
        },
        None => match parse_usize(rev) {
            None => Err("invalid revision number '"@ + rev + "' in --rev"@),
            Some(n) => if n == 0 {
                Err("revision 0 has no previous revision to diff against; use --rev 0..N"@)
            } else if n > max {
                Err(no_such_revision(n, max))
            } else {
                Ok(((n - 1) as usize, n))
            },
        },
    }
}

/// Law: a `--rev` argument is accepted exactly when it is one revision
/// `N` with `1 <= N <= max`, read as `(N-1, N)`, or, split at its first
/// `..`, two revisions `L..R`, both at most `max` and different, read as
/// `(L, R)`.
pub proof fn lemma_rev_pair_accepts(rev: Seq<char>, max: usize)
    ensures
        match first_occurrence(rev, ".."@) {
            None => match parse_usize(rev) {
                Some(n) => (1 <= n <= max) == (rev_pair(rev, max) is Ok) && (1 <= n <= max ==> rev_pair(rev, max)
                    == Ok::<(usize, usize), Seq<char>>(((n - 1) as usize, n))),
                None => rev_pair(rev, max) is Err,
            },
            Some(i) => match (parse_usize(rev.take(i)), parse_usize(rev.skip(i + 2))) {
                (Some(l), Some(r)) => (l <= max && r <= max && l != r) == (rev_pair(rev, max) is Ok) && (l <= max
                    && r <= max && l != r ==> rev_pair(rev, max) == Ok::<(usize, usize), Seq<char>>((l, r))),
                _ => rev_pair(rev, max) is Err,
            },
        },
{
}

fn parse_usize_exec(s: &[char]) -> (r: Option<usize>)
    ensures
        r == parse_usize(s@),
{
    match parse_u64_exec(s) {
        Some(v) => if v <= usize::MAX as u64 {
            Some(v as usize)
        } else {
            None
        },
        None => None,
    }
}

fn config_error(v: Vec<char>) -> (r: ForumError)
    ensures
        r == ForumError::Config(r->Config_0) && r->Config_0@ == v@,
{
    ForumError::Config(string_of(v.as_slice()))
}

fn invalid_number(part: &[char], rev: &str, with_rev: bool) -> (r: ForumError)
    ensures
        r matches ForumError::Config(s) && s@ == (if with_rev {
            "invalid revision number '"@ + part@ + "' in --rev "@ + rev@
        } else {
            "invalid revision number '"@ + part@ + "' in --rev"@
        }),
{
    let mut v = chars_of("invalid revision number '");
    append_chars(&mut v, part);
    if with_rev {
        push_str(&mut v, "' in --rev ");
        let r = chars_of(rev);
        append_chars(&mut v, r.as_slice());
    } else {
        push_str(&mut v, "' in --rev");
    }
    config_error(v)
}

fn missing_revision(n: usize, max: usize) -> (r: ForumError)
    ensures
        r matches ForumError::Config(s) && s@ == no_such_revision(n, max),
{
    let mut v = chars_of("revision ");
    push_usize(&mut v, n);
    push_str(&mut v, " does not exist; latest revision is ");
    push_usize(&mut v, max);
    config_error(v)
}

/// Parse a `--rev` argument into a (from, to) pair of revision indices
/// (see [`rev_pair`]); errors are `ForumError::Config`.
pub fn parse_rev_arg(rev: &str, max_rev: usize) -> (r: Result<(usize, usize), ForumError>)
    ensures
        match rev_pair(rev@, max_rev) {
            Ok(p) => r == Ok::<(usize, usize), ForumError>(p),
            Err(m) => r matches Err(ForumError::Config(s)) && s@ == m,
        },
{
    let cs = chars_of(rev);
    let dots = chars_of("..");
    proof {
        reveal_strlit("..");
    }
    match find_seq(cs.as_slice(), dots.as_slice()) {
        Some(i) => {
            proof {
                lemma_first_occurrence(cs@, dots@, i as int);
                assert(dots@.len() == 2);
                assert(i + 2 <= cs@.len());
            }
            let left = slice_range(cs.as_slice(), 0, i);
            let right = slice_range(cs.as_slice(), i + 2, cs.len());
            proof {
                assert(left@ =~= cs@.take(i as int));
                assert(right@ =~= cs@.skip(i + 2));
            }
            let from = match parse_usize_exec(left.as_slice()) {
                Some(f) => f,
                None => {
                    return Err(invalid_number(left.as_slice(), rev, true));
                },
            };
            let to = match parse_usize_exec(right.as_slice()) {
                Some(t) => t,
                None => {
                    return Err(invalid_number(right.as_slice(), rev, true));
                },
            };
            if from > max_rev {
                return Err(missing_revision(from, max_rev));
            }
            if to > max_rev {
                return Err(missing_revision(to, max_rev));
            }
            if from == to {
                let mut v = chars_of("cannot diff revision ");
                push_usize(&mut v, from);
                push_str(&mut v, " against itself");
                return Err(config_error(v));
            }
            Ok((from, to))
        },
        None => {
            let n = match parse_usize_exec(cs.as_slice()) {
                Some(n) => n,
                None => {
                    return Err(invalid_number(cs.as_slice(), rev, false));
                },
            };
            if n == 0 {
                return Err(
                    ForumError::Config(
                        crate::text::string_from(
                            "revision 0 has no previous revision to diff against; use --rev 0..N",
                        ),
                    ),
                );
            }
            if n > max_rev {
                return Err(missing_revision(n, max_rev));
            }
            Ok((n - 1, n))
        },
    }
}

} // verus!
