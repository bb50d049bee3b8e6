//! The state-change shorthands (`close`, `accept`, `propose`, `pend`,
//! `reject`, `withdraw`, `deprecate`) and the `state` arguments.

use vstd::prelude::*;

use crate::internal::error::ForumError;
use crate::internal::event::{Lifecycle, ThreadStatus, status_name, lifecycle_allows};
use crate::text::{chars_of, string_of, push_str, str_eq, string_from};

verus! {

/// `git forum state` sub-commands.
pub enum StateCmd {
    /// Apply the same transition to several threads.
    Bulk {
        new_state: String,
        thread_ids: Vec<String>,
        branch: Option<String>,
        kind: Option<String>,
        status: Option<String>,
        approve: Vec<String>,
        as_actor: Option<String>,
        resolve_open_actions: bool,
        dry_run: bool,
    },
}

/// Arguments of the shorthand verbs.
pub struct StateShorthandArgs {
    pub thread_id: String,
    pub new_state: String,
    pub approve: Vec<String>,
    pub as_actor: Option<String>,
    pub resolve_open_actions: bool,
    pub link_to: Vec<String>,
    pub rel: Option<String>,
    pub comment: Option<String>,
    pub fast_track: bool,
    pub force: bool,
}

pub const CLOSE_HINT: &'static str = "`close` moves task threads to done; use `accept` for rfc threads";

pub const ACCEPT_HINT: &'static str = "`accept` moves rfc threads to done; use `close` for task threads";

pub const PROPOSE_HINT: &'static str = "`propose` applies only to rfc threads (draft -> open)";

pub const PEND_HINT: &'static str = "`pend` applies only to task threads (-> working)";

pub const WITHDRAW_HINT: &'static str = "`withdraw` does not apply to execution threads; use `reject`";

/// What a shorthand means for a lifecycle.
pub enum ShorthandResolution {
    Target(ThreadStatus),
    NotApplicable(&'static str),
    Unknown,
}

/// The target of a shorthand: `close` finishes execution and record
/// threads, `accept` finishes proposals, `propose` opens proposals,
/// `pend` starts execution work, `withdraw` withdraws proposals and
/// records, `reject` and `deprecate` apply to every lifecycle.
pub open spec fn shorthand_target(sh: Seq<char>, l: Lifecycle) -> Option<Result<ThreadStatus, Seq<char>>> {
    if sh == "close"@ {
        Some(if l != Lifecycle::Proposal { Ok(ThreadStatus::Done) } else { Err(CLOSE_HINT@) })
    } else if sh == "accept"@ {
        Some(if l == Lifecycle::Proposal { Ok(ThreadStatus::Done) } else { Err(ACCEPT_HINT@) })
    } else if sh == "propose"@ {
        Some(if l == Lifecycle::Proposal { Ok(ThreadStatus::Open) } else { Err(PROPOSE_HINT@) })
    } else if sh == "pend"@ {
        Some(if l == Lifecycle::Execution { Ok(ThreadStatus::Working) } else { Err(PEND_HINT@) })
    } else if sh == "reject"@ {
        Some(Ok(ThreadStatus::Rejected))
    } else if sh == "withdraw"@ {
        Some(if l != Lifecycle::Execution { Ok(ThreadStatus::Withdrawn) } else { Err(WITHDRAW_HINT@) })
    } else if sh == "deprecate"@ {
        Some(Ok(ThreadStatus::Deprecated))
    } else {
        None
    }
}

fn resolve_shorthand(sh: &str, l: Lifecycle) -> (r: ShorthandResolution)
    ensures
        match r {
            ShorthandResolution::Target(t) => shorthand_target(sh@, l) == Some(Ok::<ThreadStatus, Seq<char>>(t)),
            ShorthandResolution::NotApplicable(h) => shorthand_target(sh@, l) == Some(Err::<ThreadStatus, Seq<char>>(h@)),
            ShorthandResolution::Unknown => shorthand_target(sh@, l) is None,
        },
{
    if str_eq(sh, "close") {
        if l != Lifecycle::Proposal { ShorthandResolution::Target(ThreadStatus::Done) } else { ShorthandResolution::NotApplicable(CLOSE_HINT) }
    } else if str_eq(sh, "accept") {
        if l == Lifecycle::Proposal { ShorthandResolution::Target(ThreadStatus::Done) } else { ShorthandResolution::NotApplicable(ACCEPT_HINT) }
    } else if str_eq(sh, "propose") {
        if l == Lifecycle::Proposal { ShorthandResolution::Target(ThreadStatus::Open) } else { ShorthandResolution::NotApplicable(PROPOSE_HINT) }
    } else if str_eq(sh, "pend") {
        if l == Lifecycle::Execution { ShorthandResolution::Target(ThreadStatus::Working) } else { ShorthandResolution::NotApplicable(PEND_HINT) }
    } else if str_eq(sh, "reject") {
        ShorthandResolution::Target(ThreadStatus::Rejected)
    } else if str_eq(sh, "withdraw") {
        if l != Lifecycle::Execution { ShorthandResolution::Target(ThreadStatus::Withdrawn) } else { ShorthandResolution::NotApplicable(WITHDRAW_HINT) }
    } else if str_eq(sh, "deprecate") {
        ShorthandResolution::Target(ThreadStatus::Deprecated)
    } else {
        ShorthandResolution::Unknown
    }
}

/// The target state name of a shorthand for a lifecycle; a shorthand that
/// does not apply gives its hint, an unknown one says so.
pub fn shorthand_target_for_lifecycle(shorthand: &str, lifecycle: Lifecycle) -> (r: Result<&'static str, ForumError>)
    ensures
        match shorthand_target(shorthand@, lifecycle) {
            Some(Ok(t)) => r matches Ok(name) && name@ == status_name(t),
            Some(Err(h)) => r matches Err(ForumError::Config(m)) && m@ == h,
            None => r matches Err(ForumError::Config(m))
                && m@ == "unknown state-change shorthand '"@ + shorthand@ + "'"@,
        },
{
    match resolve_shorthand(shorthand, lifecycle) {
        ShorthandResolution::Target(t) => Ok(t.as_str()),
        ShorthandResolution::NotApplicable(h) => Err(ForumError::Config(string_from(h))),
        ShorthandResolution::Unknown => {
            let mut v = chars_of("unknown state-change shorthand '");
            push_str(&mut v, shorthand);
            push_str(&mut v, "'");
            Err(ForumError::Config(string_of(v.as_slice())))
        },
    }
}

/// Every shorthand that applies lands on a state the lifecycle allows.
pub proof fn lemma_shorthand_targets_allowed(sh: Seq<char>, l: Lifecycle)
    requires
        shorthand_target(sh, l) matches Some(Ok(_)),
    ensures
        lifecycle_allows(l, shorthand_target(sh, l)->0->Ok_0),
{
}

} // verus!
