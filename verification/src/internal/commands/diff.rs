//! `git forum diff`: which body revisions there are, which two to
//! compare, and how the diff text reads (the `--rev` grammar is in
//! `internal::diff`).

use vstd::prelude::*;

use crate::internal::diff::{parse_rev_arg, rev_pair};
use crate::internal::error::ForumError;
use crate::text::{
    chars_of, decimal, push_str, push_usize, replace_all, replace_all_exec, str_eq,
    string_from, string_of, strs,
};

verus! {

#[derive(Debug, Clone)]
pub struct DiffArgs {
    pub thread_id: String,
    pub rev: Option<String>,
}

/// The body revisions of a thread from the bodies of its commits, oldest
/// first: a body equal to the one before it is no new revision.
pub open spec fn revisions_of(bodies: Seq<Seq<char>>) -> Seq<Seq<char>>
    decreases bodies.len(),
{
    if bodies.len() == 0 {
        seq![]
    } else {
        let r = revisions_of(bodies.drop_last());
        if r.len() > 0 && r.last() == bodies.last() {
            r
        } else {
            r.push(bodies.last())
        }
    }
}

/// The body revisions of the bodies of a thread's commits, oldest first
/// (see [`revisions_of`]).
pub fn body_revisions(bodies: &Vec<String>) -> (r: Vec<String>)
    ensures
        strs(r@) == revisions_of(strs(bodies@)),
{
    let mut out: Vec<String> = Vec::new();
    let mut i: usize = 0;
    while i < bodies.len()
        invariant
            i <= bodies@.len(),
            strs(out@) == revisions_of(strs(bodies@).take(i as int)),
        decreases bodies@.len() - i,
    {
        proof {
            assert(strs(bodies@).take(i + 1).drop_last() =~= strs(bodies@).take(i as int));
            assert(strs(bodies@).take(i + 1).last() == bodies@[i as int]@);
        }
        let ghost before = strs(out@);
        let n = out.len();
        let same = n > 0 && str_eq(out[n - 1].as_str(), bodies[i].as_str());
        if !same {
            out.push(string_from(bodies[i].as_str()));
            proof {
                assert(strs(out@) =~= before.push(bodies@[i as int]@));
            }
        } else {
            proof {
                assert(before.last() == out@[n - 1]@);
            }
        }
        i += 1;
    }
    proof {
        assert(strs(bodies@).take(i as int) =~= strs(bodies@));
    }
    out
}

/// What `git forum diff` does for a thread.
#[derive(Debug, Clone, PartialEq, Eq)]
pub enum DiffPlan {
    /// Nothing to compare; the message to print.
    Nothing(String),
    /// Compare revision `from` with revision `to`.
    Compare { from: usize, to: usize },
}

pub open spec fn no_revisions_text(thread_id: Seq<char>, body_revision_count: usize) -> Seq<char> {
    thread_id + ": no body revisions to diff (body revision count: "@ + decimal(body_revision_count as nat) + ")"@
}

/// With fewer than two revisions there is nothing to diff; else `--rev`
/// picks the pair (see [`rev_pair`], the latest revision being the
/// highest number), and without it the last two revisions are compared.
pub fn diff_plan(thread_id: &str, body_revision_count: usize, revision_count: usize, rev: Option<&str>) -> (r: Result<
    DiffPlan,
    ForumError,
>)
    ensures
        revision_count < 2 ==> (r matches Ok(DiffPlan::Nothing(m)) && m@ == no_revisions_text(thread_id@, body_revision_count)),
        revision_count >= 2 ==> match rev {
            None => r == Ok::<DiffPlan, ForumError>(
                DiffPlan::Compare { from: (revision_count - 2) as usize, to: (revision_count - 1) as usize },
            ),
            Some(spec) => match rev_pair(spec@, (revision_count - 1) as usize) {
                Ok((from, to)) => r == Ok::<DiffPlan, ForumError>(DiffPlan::Compare { from, to }),
                Err(m) => (r matches Err(ForumError::Config(x)) && x@ == m),
            },
        },
{
    if revision_count < 2 {
        let mut v = chars_of(thread_id);
        push_str(&mut v, ": no body revisions to diff (body revision count: ");
        push_usize(&mut v, body_revision_count);
        push_str(&mut v, ")");
        return Ok(DiffPlan::Nothing(string_of(v.as_slice())));
    }
    let max_rev = revision_count - 1;
    match rev {
        Some(spec) => match parse_rev_arg(spec, max_rev) {
            Ok((from, to)) => Ok(DiffPlan::Compare { from, to }),
            Err(e) => Err(e),
        },
        None => Ok(DiffPlan::Compare { from: max_rev - 1, to: max_rev }),
    }
}

/// The text written to a revision's file: the body, ending with a newline.
pub fn body_file_text(body: &str) -> (r: String)
    ensures
        r@ == (if body@.len() > 0 && body@.last() == '\n' {
            body@
        } else {
            body@ + seq!['\n']
        }),
{
    let mut v = chars_of(body);
    let n = v.len();
    if n == 0 || v[n - 1] != '\n' {
        v.push('\n');
    }
    string_of(v.as_slice())
}

/// A path without one leading `/`.
pub open spec fn without_slash(p: Seq<char>) -> Seq<char> {
    if p.len() > 0 && p[0] == '/' {
        p.drop_first()
    } else {
        p
    }
}

/// The diff of revisions `from` and `to` as the user reads it: a note
/// when git found no difference; else git's output with each file's path
/// (as given, and without its leading `/`) replaced by `a/rev<from>/body`
/// and `b/rev<to>/body`.
pub open spec fn diff_text(
    thread_id: Seq<char>,
    from: usize,
    to: usize,
    output: Seq<char>,
    old_path: Seq<char>,
    new_path: Seq<char>,
) -> Seq<char> {
    if output.len() == 0 {
        thread_id + ": revisions "@ + decimal(from as nat) + " and "@ + decimal(to as nat) + " are identical"@
    } else {
        let old_label = "a/rev"@ + decimal(from as nat) + "/body"@;
        let new_label = "b/rev"@ + decimal(to as nat) + "/body"@;
        replace_all(
            replace_all(
                replace_all(replace_all(output, old_path, old_label), without_slash(old_path), old_label),
                new_path,
                new_label,
            ),
            without_slash(new_path),
            new_label,
        )
    }
}

fn strip_slash(p: &Vec<char>) -> (r: Vec<char>)
    ensures
        r@ == without_slash(p@),
{
    if p.len() > 0 && p[0] == '/' {
        crate::text::slice_range(p.as_slice(), 1, p.len())
    } else {
        p.clone()
    }
}

/// The diff text of revisions `from` and `to` from git's output on the
/// two revision files (see [`diff_text`]).
pub fn labelled_diff(thread_id: &str, from: usize, to: usize, output: &str, old_path: &str, new_path: &str) -> (r: String)
    ensures
        r@ == diff_text(thread_id@, from, to, output@, old_path@, new_path@),
{
    let out = chars_of(output);
    if out.len() == 0 {
        let mut v = chars_of(thread_id);
        push_str(&mut v, ": revisions ");
        push_usize(&mut v, from);
        push_str(&mut v, " and ");
        push_usize(&mut v, to);
        push_str(&mut v, " are identical");
        return string_of(v.as_slice());
    }
    let mut old_label = chars_of("a/rev");
    push_usize(&mut old_label, from);
    push_str(&mut old_label, "/body");
    let mut new_label = chars_of("b/rev");
    push_usize(&mut new_label, to);
    push_str(&mut new_label, "/body");
    let op = chars_of(old_path);
    let np = chars_of(new_path);
    let op2 = strip_slash(&op);
    let np2 = strip_slash(&np);
    let a = replace_all_exec(out.as_slice(), op.as_slice(), old_label.as_slice());
    let b = replace_all_exec(a.as_slice(), op2.as_slice(), old_label.as_slice());
    let c = replace_all_exec(b.as_slice(), np.as_slice(), new_label.as_slice());
    let d = replace_all_exec(c.as_slice(), np2.as_slice(), new_label.as_slice());
    string_of(d.as_slice())
}

} // verus!
