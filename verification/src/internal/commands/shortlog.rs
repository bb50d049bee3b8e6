//! `git forum shortlog`: arguments.

use vstd::prelude::*;

verus! {

#[derive(Debug, Clone)]
pub struct ShortlogArgs {
    pub since: String,
    pub kind: Option<String>,
}

} // verus!
