//! `git forum policy`: subcommands.

use vstd::prelude::*;

verus! {

#[derive(Debug, Clone)]
pub enum PolicyArm {
    Show,
    Lint,
    Check { thread_id: String, transition: String },
}

} // verus!
