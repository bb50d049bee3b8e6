//! `git forum revise`: arguments.

use vstd::prelude::*;

verus! {

#[derive(Debug, Clone)]
pub struct ReviseArgs {
    pub thread_id: Option<String>,
    pub body: Option<String>,
    /// Path of a file to read the body from.
    pub body_file: Option<String>,
    pub edit: bool,
    pub incorporates: Vec<String>,
    pub as_actor: Option<String>,
    pub force: bool,
    pub cmd: Option<ReviseCmd>,
}

#[derive(Debug, Clone)]
pub enum ReviseCmd {
    /// Revise the body of a thread.
    Body {
        thread_id: String,
        body: Option<String>,
        body_file: Option<String>,
        edit: bool,
        incorporates: Vec<String>,
        as_actor: Option<String>,
        force: bool,
    },
    /// Revise the body of an existing node.
    Node {
        thread_id: String,
        node_id: String,
        body: Option<String>,
        body_file: Option<String>,
        edit: bool,
        as_actor: Option<String>,
        force: bool,
    },
}

} // verus!
