//! `git forum comment|objection|action|approve`: arguments.

use vstd::prelude::*;

use crate::internal::event::NodeType;

verus! {

#[derive(Debug, Clone)]
pub struct ShorthandSayArgs {
    pub thread_id: String,
    pub body_positional: Option<String>,
    pub body_flag: Option<String>,
    /// Path of a file to read the body from.
    pub body_file: Option<String>,
    pub edit: bool,
    pub reply_to: Option<String>,
    pub as_actor: Option<String>,
    /// The node type added (one of the canonical types).
    pub kind: NodeType,
    pub force: bool,
}

} // verus!
