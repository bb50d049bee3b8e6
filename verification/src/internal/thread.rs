//! Thread classification (legacy kind) and the replayed thread view that
//! the renderers read.

use vstd::prelude::*;

use crate::internal::event::Lifecycle;
use crate::text::str_eq;
use crate::internal::node::Node;
use crate::internal::evidence::{Evidence, Timestamp};

verus! {

/// 1.x thread kind. Kept because legacy IDs (`RFC-0001`, `ASK-…`) and the
/// migration tables are keyed on it.
#[derive(Debug, Clone, Copy, PartialEq, Eq, Structural)]
pub enum ThreadKind {
    Issue,
    Rfc,
    Dec,
    Task,
}

pub open spec fn kind_id_prefix(k: ThreadKind) -> Seq<char> {
    match k {
        ThreadKind::Issue => "ASK"@,
        ThreadKind::Rfc => "RFC"@,
        ThreadKind::Dec => "DEC"@,
        ThreadKind::Task => "JOB"@,
    }
}

/// The ID prefixes that name a kind: the current ones plus the 1.x
/// `ISSUE` / `TASK` spellings.
pub open spec fn kind_from_prefix(p: Seq<char>) -> Option<ThreadKind> {
    if p == "ASK"@ || p == "ISSUE"@ {
        Some(ThreadKind::Issue)
    } else if p == "RFC"@ {
        Some(ThreadKind::Rfc)
    } else if p == "DEC"@ {
        Some(ThreadKind::Dec)
    } else if p == "JOB"@ || p == "TASK"@ {
        Some(ThreadKind::Task)
    } else {
        None
    }
}

pub open spec fn kind_lifecycle(k: ThreadKind) -> Lifecycle {
    match k {
        ThreadKind::Rfc => Lifecycle::Proposal,
        ThreadKind::Dec => Lifecycle::Record,
        ThreadKind::Issue | ThreadKind::Task => Lifecycle::Execution,
    }
}

pub open spec fn kind_name(k: ThreadKind) -> Seq<char> {
    match k {
        ThreadKind::Issue => "issue"@,
        ThreadKind::Rfc => "rfc"@,
        ThreadKind::Dec => "dec"@,
        ThreadKind::Task => "task"@,
    }
}

impl ThreadKind {
    /// Prefix of the thread IDs minted for this kind.
    pub fn id_prefix(self) -> (r: &'static str)
        ensures
            r@ == kind_id_prefix(self),
    {
        match self {
            ThreadKind::Issue => "ASK",
            ThreadKind::Rfc => "RFC",
            ThreadKind::Dec => "DEC",
            ThreadKind::Task => "JOB",
        }
    }

    /// Kind named by an ID prefix.
    pub fn from_id_prefix(p: &str) -> (r: Option<ThreadKind>)
        ensures
            r == kind_from_prefix(p@),
    {
        if str_eq(p, "ASK") || str_eq(p, "ISSUE") {
            Some(ThreadKind::Issue)
        } else if str_eq(p, "RFC") {
            Some(ThreadKind::Rfc)
        } else if str_eq(p, "DEC") {
            Some(ThreadKind::Dec)
        } else if str_eq(p, "JOB") || str_eq(p, "TASK") {
            Some(ThreadKind::Task)
        } else {
            None
        }
    }

    /// lifecycle a 1.x kind maps to.
    pub fn lifecycle(self) -> (r: Lifecycle)
        ensures
            r == kind_lifecycle(self),
    {
        match self {
            ThreadKind::Rfc => Lifecycle::Proposal,
            ThreadKind::Dec => Lifecycle::Record,
            ThreadKind::Issue | ThreadKind::Task => Lifecycle::Execution,
        }
    }

    /// Initial status of a new thread of this kind.
    pub fn initial_status(self) -> (r: &'static str)
        ensures
            r@ == crate::internal::event::status_name(
                crate::internal::event::lifecycle_initial(kind_lifecycle(self)),
            ),
    {
        self.lifecycle().initial_state()
    }

    /// Lower-case name (`issue`, `rfc`, `dec`, `task`).
    pub fn as_str(self) -> (r: &'static str)
        ensures
            r@ == kind_name(self),
    {
        match self {
            ThreadKind::Issue => "issue",
            ThreadKind::Rfc => "rfc",
            ThreadKind::Dec => "dec",
            ThreadKind::Task => "task",
        }
    }
}


/// A link from a thread to another.
#[derive(Debug, Clone)]
pub struct ThreadLink {
    pub target_thread_id: String,
    pub rel: String,
}

/// The replayed view of a thread that the renderers read.
#[derive(Debug, Clone)]
pub struct ThreadState {
    pub id: String,
    pub title: String,
    /// The category (`rfc` or `task`).
    pub category: String,
    pub status: String,
    pub tags: Vec<String>,
    pub body: Option<String>,
    pub branch: Option<String>,
    pub created_at: Timestamp,
    pub created_by: String,
    pub updated_at: Timestamp,
    pub nodes: Vec<Node>,
    pub evidence_items: Vec<Evidence>,
    /// Links to other threads, in the order they were made.
    pub links: Vec<ThreadLink>,
    /// How many times the body was revised.
    pub body_revision_count: usize,
}

impl Default for ThreadState {
    fn default() -> (r: Self)
        ensures
            r.id@ == Seq::<char>::empty(),
            r.title@ == Seq::<char>::empty(),
            r.category@ == Seq::<char>::empty(),
            r.status@ == Seq::<char>::empty(),
            r.tags@.len() == 0,
            r.body is None,
            r.branch is None,
            r.created_by@ == Seq::<char>::empty(),
            r.created_at == (Timestamp { secs: 0, nanos: 0 }),
            r.updated_at == (Timestamp { secs: 0, nanos: 0 }),
            r.nodes@.len() == 0,
            r.evidence_items@.len() == 0,
            r.links@.len() == 0,
            r.body_revision_count == 0,
    {
        ThreadState {
            id: String::new(),
            title: String::new(),
            category: String::new(),
            status: String::new(),
            tags: Vec::new(),
            body: None,
            branch: None,
            created_at: Timestamp { secs: 0, nanos: 0 },
            created_by: String::new(),
            updated_at: Timestamp { secs: 0, nanos: 0 },
            nodes: Vec::new(),
            evidence_items: Vec::new(),
            links: Vec::new(),
            body_revision_count: 0,
        }
    }
}

/// A node looked up by ID, with the thread it belongs to.
#[derive(Debug, Clone)]
pub struct NodeLookup {
    pub thread_id: String,
    pub thread_title: String,
    pub thread_category: String,
    pub thread_tags: Vec<String>,
    pub node: Node,
    /// The links of the thread.
    pub links: Vec<ThreadLink>,
}

} // verus!
