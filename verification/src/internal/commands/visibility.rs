//! `git forum visibility`: whether a thread is published, and the rules
//! for changing it.

use vstd::prelude::*;

use crate::internal::error::ForumError;
use crate::text::{append_chars, chars_of, push_str, string_of};

verus! {

/// Whether `git forum push` publishes a thread.
#[derive(Debug, Clone, Copy, PartialEq, Eq, Structural)]
pub enum Visibility {
    Public,
    Private,
}

pub open spec fn visibility_name(v: Visibility) -> Seq<char> {
    match v {
        Visibility::Public => "public"@,
        Visibility::Private => "private"@,
    }
}

impl Visibility {
    pub fn as_str(self) -> (r: &'static str)
        ensures
            r@ == visibility_name(self),
    {
        match self {
            Visibility::Public => "public",
            Visibility::Private => "private",
        }
    }
}

#[derive(Debug, Clone)]
pub struct SetVisibilityArgs {
    pub thread_id: String,
    pub visibility: Visibility,
    pub as_actor: Option<String>,
    pub force: bool,
}

/// What a request to set a thread's visibility comes to.
#[derive(Debug)]
pub enum VisibilityChange {
    /// Already so: nothing is written.
    Unchanged,
    /// Write the new value with this commit message; `warn` when it is a
    /// public thread going private (copies already fetched stay public).
    Apply { warn: bool, message: String },
    /// Not done.
    Refused(ForumError),
}

pub open spec fn change_message(thread_id: Seq<char>, v: Visibility) -> Seq<char> {
    "visibility set "@ + thread_id + " -> "@ + visibility_name(v)
}

pub open spec fn refusal_text(thread_id: Seq<char>) -> Seq<char> {
    "refusing to flip "@ + thread_id + " public → private from a non-interactive shell without --force"@
}

/// The rule: no change is a no-op; public to private warns, and from a
/// non-interactive shell needs `force`; anything else is applied.
pub open spec fn visibility_change(
    thread_id: Seq<char>,
    current: Visibility,
    new: Visibility,
    force: bool,
    interactive: bool,
    r: VisibilityChange,
) -> bool {
    if current == new {
        r is Unchanged
    } else if current == Visibility::Public && new == Visibility::Private {
        if !interactive && !force {
            r matches VisibilityChange::Refused(ForumError::Repo(m)) && m@ == refusal_text(thread_id)
        } else {
            r matches VisibilityChange::Apply { warn, message } && warn && message@ == change_message(thread_id, new)
        }
    } else {
        r matches VisibilityChange::Apply { warn, message } && !warn && message@ == change_message(thread_id, new)
    }
}

/// Decide a visibility change of `thread_id` from `current` to `new`;
/// `interactive` tells whether stdin is a terminal.
pub fn decide_visibility(thread_id: &str, current: Visibility, new: Visibility, force: bool, interactive: bool) -> (r: VisibilityChange)
    ensures
        visibility_change(thread_id@, current, new, force, interactive, r),
{
    if current == new {
        return VisibilityChange::Unchanged;
    }
    let going_private = current == Visibility::Public && new == Visibility::Private;
    if going_private && !interactive && !force {
        let mut v = chars_of("refusing to flip ");
        let t = chars_of(thread_id);
        append_chars(&mut v, t.as_slice());
        push_str(&mut v, " public → private from a non-interactive shell without --force");
        return VisibilityChange::Refused(ForumError::Repo(string_of(v.as_slice())));
    }
    let mut m = chars_of("visibility set ");
    let t = chars_of(thread_id);
    append_chars(&mut m, t.as_slice());
    push_str(&mut m, " -> ");
    push_str(&mut m, new.as_str());
    VisibilityChange::Apply { warn: going_private, message: string_of(m.as_slice()) }
}

/// The warning printed before a public thread goes private.
pub open spec fn irrevocable_warning_text(thread_id: Seq<char>) -> Seq<Seq<char>> {
    seq![
        "warning: flipping "@ + thread_id + " public → private is irrevocable for already-published copies."@,
        "         Forks and mirrors that have already fetched refs/forum/published/"@ + thread_id,
        "         retain the prior tree."@,
    ]
}

pub fn irrevocable_warning(thread_id: &str) -> (r: Vec<String>)
    ensures
        crate::text::strs(r@) == irrevocable_warning_text(thread_id@),
{
    let t = chars_of(thread_id);
    let mut a = chars_of("warning: flipping ");
    append_chars(&mut a, t.as_slice());
    push_str(&mut a, " public → private is irrevocable for already-published copies.");
    let mut b = chars_of("         Forks and mirrors that have already fetched refs/forum/published/");
    append_chars(&mut b, t.as_slice());
    let mut out: Vec<String> = Vec::new();
    out.push(string_of(a.as_slice()));
    out.push(string_of(b.as_slice()));
    out.push(crate::text::string_from("         retain the prior tree."));
    proof {
        assert(crate::text::strs(out@) =~= irrevocable_warning_text(thread_id@));
    }
    out
}

/// The line `git forum visibility` prints once done.
pub fn visibility_done_line(thread_id: &str, v: Visibility) -> (r: String)
    ensures
        r@ == thread_id@ + " -> visibility "@ + visibility_name(v),
{
    let mut m = chars_of(thread_id);
    push_str(&mut m, " -> visibility ");
    push_str(&mut m, v.as_str());
    string_of(m.as_slice())
}

} // verus!
