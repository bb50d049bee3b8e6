//! `git forum status`: arguments.

use vstd::prelude::*;

verus! {

#[derive(Debug, Clone)]
pub struct StatusArgs {
    pub thread_id: String,
}

} // verus!
