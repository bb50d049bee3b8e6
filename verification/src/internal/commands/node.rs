//! `git forum node`: arguments.

use vstd::prelude::*;

verus! {

#[derive(Debug, Clone)]
pub struct NodeShowArgs {
    pub node_id: String,
}

#[derive(Debug, Clone)]
pub struct NodeAddArgs {
    pub thread_id: String,
    pub node_type: String,
    pub body_positional: Option<String>,
    pub body_flag: Option<String>,
    /// Path of a file to read the body from.
    pub body_file: Option<String>,
    pub edit: bool,
    pub reply_to: Option<String>,
    pub as_actor: Option<String>,
    pub force: bool,
}

} // verus!
