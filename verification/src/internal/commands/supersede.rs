//! `git forum supersede`: arguments.

use vstd::prelude::*;

verus! {

#[derive(Debug, Clone)]
pub struct SupersedeArgs {
    pub thread_id: String,
    pub by: String,
    pub body: Option<String>,
    pub as_actor: Option<String>,
    pub fast_track: bool,
    pub force: bool,
}

} // verus!
