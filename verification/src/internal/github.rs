//! The GitHub data the importer and exporter read, and the splitter for
//! the concatenated JSON arrays that `gh api --paginate` prints.

use vstd::prelude::*;

use crate::internal::evidence::Timestamp;
use crate::text::{chars_of, slice_range, strs, views, to_strings};

verus! {

/// A GitHub issue as `gh issue view --json` returns it.
#[derive(Debug)]
pub struct GhIssue {
    pub number: u64,
    pub title: String,
    pub body: Option<String>,
    /// `OPEN` or `CLOSED`.
    pub state: String,
    pub created_at: Timestamp,
    pub author: GhAuthor,
    pub labels: Vec<GhLabel>,
    pub assignees: Vec<GhAssignee>,
    pub milestone: Option<GhMilestone>,
}

#[derive(Debug)]
pub struct GhAuthor {
    pub login: String,
}

#[derive(Debug)]
pub struct GhLabel {
    pub name: String,
}

#[derive(Debug)]
pub struct GhAssignee {
    pub login: String,
}

#[derive(Debug)]
pub struct GhMilestone {
    pub title: String,
}

/// A comment on a GitHub issue.
#[derive(Debug)]
pub struct GhComment {
    pub id: u64,
    pub body: Option<String>,
    pub user: GhCommentUser,
    pub created_at: Timestamp,
}

#[derive(Debug)]
pub struct GhCommentUser {
    pub login: String,
}

/// An existing comment, for re-export marker matching.
#[derive(Debug)]
pub struct GhExistingComment {
    pub id: u64,
    pub body: String,
}

// ---------------------------------------------------------------------------
// Splitting `[..][..]` into its arrays
// ---------------------------------------------------------------------------

/// The scanner's state after some prefix of the input: bracket depth,
/// start of the current top-level array, inside a string, after a
/// backslash in a string, and the arrays found so far.
pub struct Scan {
    pub depth: int,
    pub start: Option<int>,
    pub in_string: bool,
    pub escaped: bool,
    pub found: Seq<Seq<char>>,
}

/// The scanner's state after the first `n` characters of `s`. Inside a
/// string, a backslash escapes the next character and an unescaped `"`
/// ends it; outside, `"` starts a string, `[` opens (at depth 0 it starts
/// an array) and `]` closes (back at depth 0 it ends the array that
/// started, which is kept whole).
pub open spec fn scan(s: Seq<char>, n: nat) -> Scan
    decreases n,
{
    if n == 0 || n > s.len() {
        Scan { depth: 0, start: None, in_string: false, escaped: false, found: seq![] }
    } else {
        let st = scan(s, (n - 1) as nat);
        let i = n - 1;
        let ch = s[i];
        if st.in_string {
            if ch == '\\' && !st.escaped {
                Scan { escaped: true, ..st }
            } else if ch == '"' && !st.escaped {
                Scan { in_string: false, escaped: false, ..st }
            } else {
                Scan { escaped: false, ..st }
            }
        } else if ch == '"' {
            Scan { in_string: true, escaped: false, ..st }
        } else if ch == '[' {
            Scan {
                depth: st.depth + 1,
                start: if st.depth == 0 { Some(i as int) } else { st.start },
                escaped: false,
                ..st
            }
        } else if ch == ']' {
            if st.depth - 1 == 0 {
                Scan {
                    depth: 0,
                    start: None,
                    escaped: false,
                    found: match st.start {
                        Some(b) => st.found.push(s.subrange(b, i + 1)),
                        None => st.found,
                    },
                    ..st
                }
            } else {
                Scan { depth: st.depth - 1, escaped: false, ..st }
            }
        } else {
            Scan { escaped: false, ..st }
        }
    }
}

/// The top-level JSON arrays of a concatenation such as `[..][..]`.
pub open spec fn json_arrays(s: Seq<char>) -> Seq<Seq<char>> {
    scan(s, s.len()).found
}

proof fn lemma_scan_bounds(s: Seq<char>, n: nat)
    requires
        n <= s.len(),
    ensures
        -(n as int) <= scan(s, n).depth <= n,
        scan(s, n).start matches Some(b) ==> 0 <= b < n,
        scan(s, n).depth > 0 ==> scan(s, n).start is Some,
    decreases n,
{
    if n > 0 {
        lemma_scan_bounds(s, (n - 1) as nat);
    }
}

/// Split concatenated JSON arrays (`[..][..]`) into the arrays, brackets
/// inside strings ignored (see [`json_arrays`]).
pub fn split_json_arrays(input: &str) -> (r: Vec<String>)
    requires
        input@.len() < i64::MAX,
    ensures
        strs(r@) == json_arrays(input@),
{
    let cs = chars_of(input);
    let mut result: Vec<Vec<char>> = Vec::new();
    let mut depth: i64 = 0;
    let mut start: Option<usize> = None;
    let mut in_string = false;
    let mut prev_backslash = false;
    let mut i: usize = 0;
    while i < cs.len()
        invariant
            cs@ == input@,
            cs@.len() < i64::MAX,
            i <= cs@.len(),
            depth == scan(cs@, i as nat).depth,
            in_string == scan(cs@, i as nat).in_string,
            prev_backslash == scan(cs@, i as nat).escaped,
            match start {
                Some(b) => scan(cs@, i as nat).start == Some(b as int),
                None => scan(cs@, i as nat).start is None,
            },
            views(result@) == scan(cs@, i as nat).found,
        decreases cs@.len() - i,
    {
        proof {
            lemma_scan_bounds(cs@, i as nat);
        }
        let ch = cs[i];
        if in_string {
            if ch == '\\' && !prev_backslash {
                prev_backslash = true;
            } else if ch == '"' && !prev_backslash {
                in_string = false;
                prev_backslash = false;
            } else {
                prev_backslash = false;
            }
        } else {
            if ch == '"' {
                in_string = true;
            } else if ch == '[' {
                if depth == 0 {
                    start = Some(i);
                }
                depth = depth + 1;
            } else if ch == ']' {
                depth = depth - 1;
                if depth == 0 {
                    match start {
                        Some(b) => {
                            let piece = slice_range(cs.as_slice(), b, i + 1);
                            let ghost before = views(result@);
                            result.push(piece);
                            proof {
                                assert(views(result@) =~= before.push(cs@.subrange(b as int, i + 1)));
                            }
                        },
                        None => {},
                    }
                    start = None;
                }
            }
            prev_backslash = false;
        }
        i += 1;
    }
    to_strings(&result)
}

} // verus!
