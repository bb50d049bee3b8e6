//! `git forum branch`: binding a thread to a Git branch.

use vstd::prelude::*;

verus! {

/// The `branch` subcommands.
#[derive(Debug, Clone)]
pub enum BranchCmd {
    /// Bind a thread to an existing Git branch.
    Bind { thread_id: String, branch: String, as_actor: Option<String> },
    /// Clear the bound branch from a thread.
    Clear { thread_id: String, as_actor: Option<String> },
}

} // verus!
