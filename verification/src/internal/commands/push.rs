//! The `push` command's arguments and summary line.

use vstd::prelude::*;

use crate::text::{chars_of, string_of, push_str, push_usize, decimal};

verus! {

/// Arguments of `git forum push`.
pub struct PushArgs {
    pub remote: Option<String>,
    pub strict: bool,
}

/// Counts that drive the summary line and the exit code.
#[derive(Debug, Clone, Default, PartialEq, Eq)]
pub struct PushSummary {
    pub published_total: usize,
    pub created: usize,
    pub updated: usize,
    pub withdrawn: usize,
    pub failed: usize,
    pub warnings: usize,
}

pub open spec fn push_summary_text(s: PushSummary) -> Seq<char> {
    "Published "@ + decimal(s.published_total as nat) + " threads ("@ + decimal(s.created as nat)
        + " new, "@ + decimal(s.updated as nat) + " updated, "@ + decimal(s.withdrawn as nat)
        + " withdrawn, "@ + decimal(s.failed as nat) + " failed)"@
}

impl PushSummary {
    /// The summary line (warnings are not part of it).
    pub fn render(&self) -> (r: String)
        ensures
            r@ == push_summary_text(*self),
    {
        let mut v = chars_of("Published ");
        push_usize(&mut v, self.published_total);
        push_str(&mut v, " threads (");
        push_usize(&mut v, self.created);
        push_str(&mut v, " new, ");
        push_usize(&mut v, self.updated);
        push_str(&mut v, " updated, ");
        push_usize(&mut v, self.withdrawn);
        push_str(&mut v, " withdrawn, ");
        push_usize(&mut v, self.failed);
        push_str(&mut v, " failed)");
        proof {
            assert(v@ =~= push_summary_text(*self));
        }
        string_of(v.as_slice())
    }
}

} // verus!
