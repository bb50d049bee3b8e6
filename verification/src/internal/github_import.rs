//! Importing GitHub issues: the import result and plan, and the thread
//! body built from an issue.

use vstd::prelude::*;

use crate::internal::error::ForumError;
use crate::internal::evidence::{format_timestamp, timestamp_text};
use crate::internal::github::{GhIssue, GhLabel, GhAssignee, GhComment};
use crate::text::{chars_of, string_of, push_str, append_chars, join, join_chars};

verus! {

/// Result of importing one GitHub issue.
pub struct ImportResult {
    pub thread_id: String,
    pub github_url: String,
    pub comments_imported: usize,
    pub state_changed: bool,
}

/// What an import would create (for `--dry-run`).
pub struct ImportPlan {
    pub title: String,
    pub body: Option<String>,
    pub github_url: String,
    pub comment_count: usize,
    pub would_close: bool,
    pub already_imported: Option<String>,
}

pub open spec fn label_names(ls: Seq<GhLabel>) -> Seq<Seq<char>> {
    Seq::new(ls.len(), |i: int| ls[i].name@)
}

pub open spec fn assignee_logins(a: Seq<GhAssignee>) -> Seq<Seq<char>> {
    Seq::new(a.len(), |i: int| a[i].login@)
}

/// The metadata lines of an issue: labels, assignees and milestone, each
/// only when present.
pub open spec fn issue_meta(issue: GhIssue) -> Seq<char> {
    (if issue.labels@.len() > 0 {
        "**Labels:** "@ + join(label_names(issue.labels@), ", "@) + "\n"@
    } else {
        Seq::<char>::empty()
    }) + (if issue.assignees@.len() > 0 {
        "**Assignees:** "@ + join(assignee_logins(issue.assignees@), ", "@) + "\n"@
    } else {
        Seq::<char>::empty()
    }) + (match issue.milestone {
        Some(m) => "**Milestone:** "@ + m.title@ + "\n"@,
        None => Seq::<char>::empty(),
    })
}

/// The thread body of an imported issue: the metadata, a blank line and
/// the issue body; either part alone when the other is empty.
pub open spec fn import_body(issue: GhIssue) -> Seq<char> {
    let meta = issue_meta(issue);
    let body = match issue.body {
        Some(b) => b@,
        None => Seq::<char>::empty(),
    };
    if meta.len() == 0 {
        body
    } else if body.len() == 0 {
        meta
    } else {
        meta + "\n"@ + body
    }
}

/// Build the thread body of an imported issue (see [`import_body`]).
pub fn format_issue_body(issue: &GhIssue) -> (r: String)
    ensures
        r@ == import_body(*issue),
{
    let mut meta: Vec<char> = Vec::new();
    if issue.labels.len() > 0 {
        let mut names: Vec<Vec<char>> = Vec::new();
        let mut i: usize = 0;
        while i < issue.labels.len()
            invariant
                i <= issue.labels@.len(),
                names@.len() == i,
                forall|j: int| 0 <= j < i ==> #[trigger] names@[j]@ == issue.labels@[j].name@,
            decreases issue.labels@.len() - i,
        {
            names.push(chars_of(issue.labels[i].name.as_str()));
            i += 1;
        }
        proof {
            assert(crate::text::views(names@) =~= label_names(issue.labels@));
        }
        push_str(&mut meta, "**Labels:** ");
        let sep = chars_of(", ");
        let j = join_chars(&names, sep.as_slice());
        append_chars(&mut meta, j.as_slice());
        push_str(&mut meta, "\n");
    }
    let ghost after_labels = meta@;
    if issue.assignees.len() > 0 {
        let mut names: Vec<Vec<char>> = Vec::new();
        let mut i: usize = 0;
        while i < issue.assignees.len()
            invariant
                i <= issue.assignees@.len(),
                names@.len() == i,
                forall|j: int| 0 <= j < i ==> #[trigger] names@[j]@ == issue.assignees@[j].login@,
            decreases issue.assignees@.len() - i,
        {
            names.push(chars_of(issue.assignees[i].login.as_str()));
            i += 1;
        }
        proof {
            assert(crate::text::views(names@) =~= assignee_logins(issue.assignees@));
        }
        push_str(&mut meta, "**Assignees:** ");
        let sep = chars_of(", ");
        let j = join_chars(&names, sep.as_slice());
        append_chars(&mut meta, j.as_slice());
        push_str(&mut meta, "\n");
    }
    let ghost after_assignees = meta@;
    match &issue.milestone {
        Some(m) => {
            push_str(&mut meta, "**Milestone:** ");
            push_str(&mut meta, m.title.as_str());
            push_str(&mut meta, "\n");
        },
        None => {},
    }
    proof {
        let l = if issue.labels@.len() > 0 {
            "**Labels:** "@ + join(label_names(issue.labels@), ", "@) + "\n"@
        } else {
            Seq::<char>::empty()
        };
        let a = if issue.assignees@.len() > 0 {
            "**Assignees:** "@ + join(assignee_logins(issue.assignees@), ", "@) + "\n"@
        } else {
            Seq::<char>::empty()
        };
        assert(after_labels =~= l);
        assert(after_assignees =~= l + a);
        assert(meta@ =~= issue_meta(*issue));
    }
    let body: Vec<char> = match &issue.body {
        Some(b) => chars_of(b.as_str()),
        None => Vec::new(),
    };
    if meta.len() == 0 {
        return string_of(body.as_slice());
    }
    if body.len() == 0 {
        return string_of(meta.as_slice());
    }
    let mut out = meta;
    push_str(&mut out, "\n");
    append_chars(&mut out, body.as_slice());
    string_of(out.as_slice())
}

/// The node body of an imported comment: the author and the time it was
/// written (`%Y-%m-%dT%H:%M:%SZ`, empty for an instant chrono cannot
/// represent), a blank line, and the comment's text.
pub open spec fn imported_comment_text(c: GhComment) -> Seq<char> {
    "**@"@ + c.user.login@ + "** ("@ + match timestamp_text(c.created_at.secs, c.created_at.nanos, "%Y-%m-%dT%H:%M:%SZ"@) {
        Some(t) => t,
        None => Seq::<char>::empty(),
    } + ")\n\n"@ + match c.body {
        Some(b) => b@,
        None => Seq::<char>::empty(),
    }
}

/// Build the node body of an imported comment (see
/// [`imported_comment_text`]).
pub fn imported_comment_body(comment: &GhComment) -> (r: String)
    ensures
        r@ == imported_comment_text(*comment),
{
    let mut v = chars_of("**@");
    push_str(&mut v, comment.user.login.as_str());
    push_str(&mut v, "** (");
    match format_timestamp(comment.created_at, "%Y-%m-%dT%H:%M:%SZ") {
        Some(t) => push_str(&mut v, t.as_str()),
        None => {},
    }
    push_str(&mut v, ")\n\n");
    match &comment.body {
        Some(b) => push_str(&mut v, b.as_str()),
        None => {},
    }
    string_of(v.as_slice())
}

/// The error for an issue imported before.
pub fn already_imported_error(github_url: &str, existing_id: &str) -> (r: ForumError)
    ensures
        r matches ForumError::Repo(m) && m@ == "GitHub issue "@ + github_url@ + " already imported as "@ + existing_id@,
{
    let mut v = chars_of("GitHub issue ");
    push_str(&mut v, github_url);
    push_str(&mut v, " already imported as ");
    push_str(&mut v, existing_id);
    ForumError::Repo(string_of(v.as_slice()))
}

/// The body an imported thread is created with: none when the built text
/// is empty.
pub fn import_thread_body(issue: &GhIssue) -> (r: Option<String>)
    ensures
        match r {
            Some(b) => b@ == import_body(*issue) && b@.len() > 0,
            None => import_body(*issue).len() == 0,
        },
{
    let b = format_issue_body(issue);
    if b.as_str().is_empty() {
        None
    } else {
        Some(b)
    }
}

/// An imported issue that GitHub reports `CLOSED` is closed here too.
pub fn import_closes(issue: &GhIssue) -> (r: bool)
    ensures
        r == (issue.state@ == "CLOSED"@),
{
    crate::text::str_eq(issue.state.as_str(), "CLOSED")
}

} // verus!
