//! The snapshot document of a thread (what `refs/forum/threads/<id>`
//! stores), and the migration of a replayed legacy thread onto it.

use vstd::prelude::*;

use crate::internal::commands::migrate::{dropped_tags, omissions_view, project_tags, projected_tags, Omission};
use crate::internal::commands::thread_new::{category_of, inline_view, lifecycle_to_category, link_rel, short_evidence_id, InlineNode};
use crate::internal::evidence::EvidenceKind;
use crate::internal::error::ForumError;
use crate::internal::event::{lifecycle_initial, status_name, Lifecycle};
use crate::internal::evidence::{Evidence, EvidenceFile, EvidenceRecord, Timestamp};
use crate::internal::node::{node_type_canonical, node_type_is_canonical, node_type_name, Node, NodeType};
use crate::internal::policy::{category_definition, category_lifecycle};
use crate::internal::thread::{ThreadKind, ThreadLink};
use crate::text::{string_from, strs};

verus! {

/// The status of a node in a snapshot.
#[derive(Debug, Clone, Copy, PartialEq, Eq, Structural)]
pub enum NodeStatus {
    Open,
    Resolved,
    Retracted,
    Incorporated,
}

/// `thread.toml`: the thread's own fields.
#[derive(Debug, Clone)]
pub struct ThreadSnapshot {
    pub id: String,
    pub title: String,
    pub category: String,
    pub status: String,
    pub tags: Vec<String>,
    pub created_at: Timestamp,
    pub created_by: String,
    pub updated_at: Timestamp,
    pub updated_by: String,
    pub branch: Option<String>,
    pub supersedes: Vec<String>,
}

/// One node of a snapshot, with its body.
#[derive(Debug, Clone)]
pub struct SnapshotNode {
    pub id: String,
    /// One of the four canonical types.
    pub kind: NodeType,
    pub status: NodeStatus,
    pub created_at: Timestamp,
    pub created_by: String,
    pub reply_to: Option<String>,
    /// The legacy rhetorical subtype (`claim`, `summary`, ...), if any.
    pub legacy_label: Option<String>,
    pub body: String,
}

/// One entry of `links.toml`.
#[derive(Debug, Clone)]
pub struct LinkRecord {
    pub target: String,
    pub rel: String,
    pub created_at: Timestamp,
    pub created_by: String,
}

/// A whole snapshot: the thread, its body, nodes, links and evidence.
#[derive(Debug, Clone)]
pub struct ThreadDocument {
    pub snapshot: ThreadSnapshot,
    pub body: Option<String>,
    pub nodes: Vec<SnapshotNode>,
    pub links: Vec<LinkRecord>,
    pub evidence: EvidenceFile,
}

/// A thread replayed from a legacy event chain.
#[derive(Debug, Clone)]
pub struct LegacyThreadState {
    pub id: String,
    pub kind: ThreadKind,
    pub lifecycle: Lifecycle,
    pub title: String,
    pub body: Option<String>,
    pub tags: Vec<String>,
    pub branch: Option<String>,
    pub created_at: Timestamp,
    pub created_by: String,
    pub nodes: Vec<Node>,
    pub links: Vec<ThreadLink>,
    pub evidence_items: Vec<Evidence>,
}

/// The snapshot status of a node's flags: retracted first, then
/// incorporated, then resolved, else open.
pub open spec fn status_of(n: Node) -> NodeStatus {
    if n.retracted {
        NodeStatus::Retracted
    } else if n.incorporated {
        NodeStatus::Incorporated
    } else if n.resolved {
        NodeStatus::Resolved
    } else {
        NodeStatus::Open
    }
}

/// The legacy label a node type leaves: the name of a non-canonical type.
pub open spec fn legacy_label_of(t: NodeType) -> Option<Seq<char>> {
    if node_type_is_canonical(t) {
        None
    } else {
        Some(node_type_name(t))
    }
}

pub open spec fn opt_str(o: Option<String>) -> Option<Seq<char>> {
    match o {
        Some(s) => Some(s@),
        None => None,
    }
}

/// A migrated node: its ID with `/` made `-`, its canonical type, status
/// and legacy label, author, time, reply target (made tree-safe too) and
/// body.
pub open spec fn migrated_node(m: SnapshotNode, n: Node) -> bool {
    &&& m.id@ == crate::text::replace_char(n.node_id@, '/', '-')
    &&& m.kind == node_type_canonical(n.node_type)
    &&& m.status == status_of(n)
    &&& m.created_at == n.created_at
    &&& m.created_by@ == n.actor@
    &&& opt_str(m.reply_to) == match n.reply_to {
        Some(p) => Some(crate::text::replace_char(p@, '/', '-')),
        None => None,
    }
    &&& opt_str(m.legacy_label) == legacy_label_of(n.node_type)
    &&& m.body@ == n.body@
}

/// The snapshot a legacy thread migrates to: its category's initial
/// status, the projected tags (see [`projected_tags`]), created and
/// updated at creation by the creator; nodes, links and evidence carried
/// over one for one, links and evidence stamped with the thread's
/// creation.
pub open spec fn projected_doc(s: LegacyThreadState, d: ThreadDocument) -> bool {
    let cat = category_of(s.lifecycle);
    &&& d.snapshot.id@ == s.id@
    &&& d.snapshot.title@ == s.title@
    &&& d.snapshot.category@ == cat
    &&& d.snapshot.status@ == status_name(lifecycle_initial(category_lifecycle(cat)->0))
    &&& strs(d.snapshot.tags@) == projected_tags(strs(s.tags@), s.lifecycle, s.kind)
    &&& d.snapshot.created_at == s.created_at
    &&& d.snapshot.created_by@ == s.created_by@
    &&& d.snapshot.updated_at == s.created_at
    &&& d.snapshot.updated_by@ == s.created_by@
    &&& opt_str(d.snapshot.branch) == opt_str(s.branch)
    &&& d.snapshot.supersedes@.len() == 0
    &&& opt_str(d.body) == opt_str(s.body)
    &&& d.nodes@.len() == s.nodes@.len()
    &&& (forall|i: int| 0 <= i < s.nodes@.len() ==> migrated_node(#[trigger] d.nodes@[i], s.nodes@[i]))
    &&& d.links@.len() == s.links@.len()
    &&& (forall|i: int|
        0 <= i < s.links@.len() ==> {
            let l = #[trigger] d.links@[i];
            &&& l.target@ == s.links@[i].target_thread_id@
            &&& l.rel@ == s.links@[i].rel@
            &&& l.created_at == s.created_at
            &&& l.created_by@ == s.created_by@
        })
    &&& d.evidence.entries@.len() == s.evidence_items@.len()
    &&& (forall|i: int|
        0 <= i < s.evidence_items@.len() ==> {
            let e = #[trigger] d.evidence.entries@[i];
            &&& e.id@ == s.evidence_items@[i].evidence_id@
            &&& e.kind == s.evidence_items@[i].kind
            &&& e.ref_target@ == s.evidence_items@[i].ref_target@
            &&& e.created_at == s.created_at
            &&& e.created_by@ == s.created_by@
        })
}

fn copy_opt(o: &Option<String>) -> (r: Option<String>)
    ensures
        opt_str(r) == opt_str(*o),
{
    match o {
        Some(s) => Some(string_from(s.as_str())),
        None => None,
    }
}

fn node_status_exec(n: &Node) -> (r: NodeStatus)
    ensures
        r == status_of(*n),
{
    if n.retracted {
        NodeStatus::Retracted
    } else if n.incorporated {
        NodeStatus::Incorporated
    } else if n.resolved {
        NodeStatus::Resolved
    } else {
        NodeStatus::Open
    }
}

fn migrate_node(n: &Node) -> (r: SnapshotNode)
    ensures
        migrated_node(r, *n),
{
    let legacy_label = if n.node_type.is_canonical() {
        None
    } else {
        Some(string_from(n.node_type.as_str()))
    };
    let reply_to = match &n.reply_to {
        Some(p) => Some(crate::internal::commands::migrate::tree_safe_node_id(p.as_str())),
        None => None,
    };
    SnapshotNode {
        id: crate::internal::commands::migrate::tree_safe_node_id(n.node_id.as_str()),
        kind: n.node_type.canonical(),
        status: node_status_exec(n),
        created_at: n.created_at,
        created_by: string_from(n.actor.as_str()),
        reply_to,
        legacy_label,
        body: string_from(n.body.as_str()),
    }
}

/// The snapshot document a replayed legacy thread migrates to, with an
/// omission for each invalid tag dropped (see [`projected_doc`]). The
/// target category is always a built-in one, so this never fails.
pub fn project_state_to_doc(state: &LegacyThreadState) -> (r: Result<(ThreadDocument, Vec<Omission>), ForumError>)
    ensures
        match r {
            Ok((d, om)) => projected_doc(*state, d) && omissions_view(om@) == Seq::new(
                dropped_tags(strs(state.tags@)).len(),
                |i: int| ("tag"@, dropped_tags(strs(state.tags@))[i].0, dropped_tags(strs(state.tags@))[i].1),
            ),
            Err(_) => category_lifecycle(category_of(state.lifecycle)) is None,
        },
{
    let (tags, omissions) = project_tags(&state.tags, state.lifecycle, state.kind);
    let category = lifecycle_to_category(state.lifecycle);
    let def = match category_definition(category) {
        Some(d) => d,
        None => {
            return Err(ForumError::Config(string_from("migration target category is not built in")));
        },
    };
    let mut nodes: Vec<SnapshotNode> = Vec::new();
    let mut i: usize = 0;
    while i < state.nodes.len()
        invariant
            i <= state.nodes@.len(),
            nodes@.len() == i,
            forall|k: int| 0 <= k < i ==> migrated_node(#[trigger] nodes@[k], state.nodes@[k]),
        decreases state.nodes@.len() - i,
    {
        nodes.push(migrate_node(&state.nodes[i]));
        i += 1;
    }
    let mut links: Vec<LinkRecord> = Vec::new();
    let mut j: usize = 0;
    while j < state.links.len()
        invariant
            j <= state.links@.len(),
            links@.len() == j,
            forall|k: int|
                0 <= k < j ==> {
                    let l = #[trigger] links@[k];
                    &&& l.target@ == state.links@[k].target_thread_id@
                    &&& l.rel@ == state.links@[k].rel@
                    &&& l.created_at == state.created_at
                    &&& l.created_by@ == state.created_by@
                },
        decreases state.links@.len() - j,
    {
        links.push(LinkRecord {
            target: string_from(state.links[j].target_thread_id.as_str()),
            rel: string_from(state.links[j].rel.as_str()),
            created_at: state.created_at,
            created_by: string_from(state.created_by.as_str()),
        });
        j += 1;
    }
    let mut entries: Vec<EvidenceRecord> = Vec::new();
    let mut k: usize = 0;
    while k < state.evidence_items.len()
        invariant
            k <= state.evidence_items@.len(),
            entries@.len() == k,
            forall|q: int|
                0 <= q < k ==> {
                    let e = #[trigger] entries@[q];
                    &&& e.id@ == state.evidence_items@[q].evidence_id@
                    &&& e.kind == state.evidence_items@[q].kind
                    &&& e.ref_target@ == state.evidence_items@[q].ref_target@
                    &&& e.created_at == state.created_at
                    &&& e.created_by@ == state.created_by@
                },
        decreases state.evidence_items@.len() - k,
    {
        let ev = &state.evidence_items[k];
        entries.push(EvidenceRecord {
            id: string_from(ev.evidence_id.as_str()),
            kind: ev.kind,
            ref_target: string_from(ev.ref_target.as_str()),
            created_at: state.created_at,
            created_by: string_from(state.created_by.as_str()),
        });
        k += 1;
    }
    let snapshot = ThreadSnapshot {
        id: string_from(state.id.as_str()),
        title: string_from(state.title.as_str()),
        category: string_from(category),
        status: string_from(def.initial_status.as_str()),
        tags,
        created_at: state.created_at,
        created_by: string_from(state.created_by.as_str()),
        updated_at: state.created_at,
        updated_by: string_from(state.created_by.as_str()),
        branch: copy_opt(&state.branch),
        supersedes: Vec::new(),
    };
    let doc = ThreadDocument {
        snapshot,
        body: copy_opt(&state.body),
        nodes,
        links,
        evidence: EvidenceFile { entries },
    };
    Ok((doc, omissions))
}


/// A new node of a new thread: its allocated ID, the inline node's type,
/// label and body, open, created now by the actor.
pub open spec fn new_node(m: SnapshotNode, id: Seq<char>, n: InlineNode, actor: Seq<char>, now: Timestamp) -> bool {
    &&& m.id@ == id
    &&& m.kind == n.kind
    &&& opt_str(m.legacy_label) == inline_view(n).1
    &&& m.body@ == n.body@
    &&& m.status == NodeStatus::Open
    &&& m.created_at == now
    &&& m.created_by@ == actor
    &&& m.reply_to is None
}

/// The relation given, empty when none was.
pub open spec fn rel_text(rel: Option<String>) -> Seq<char> {
    match rel {
        Some(x) => x@,
        None => Seq::<char>::empty(),
    }
}

/// The link targets of a new thread: each `--link-to` target with the
/// given relation, then `supersedes` to the source thread.
pub open spec fn new_links(targets: Seq<Seq<char>>, rel: Seq<char>, source: Option<Seq<char>>) -> Seq<(Seq<char>, Seq<char>)> {
    Seq::new(targets.len(), |i: int| (targets[i], rel)) + match source {
        Some(src) => seq![(src, "supersedes"@)],
        None => seq![],
    }
}

/// The document `git forum new` writes: the thread in its category's
/// initial status, created and updated now by the actor, with the tags
/// (plus `decision` for records), the inline nodes, the links, the
/// source in `supersedes`, and the commit as evidence.
pub open spec fn new_doc(
    d: ThreadDocument,
    thread_id: Seq<char>,
    title: Seq<char>,
    body: Option<Seq<char>>,
    lifecycle: Lifecycle,
    tags: Seq<Seq<char>>,
    branch: Option<Seq<char>>,
    actor: Seq<char>,
    now: Timestamp,
    inline: Seq<InlineNode>,
    node_ids: Seq<Seq<char>>,
    links: Seq<(Seq<char>, Seq<char>)>,
    source: Option<Seq<char>>,
    commit: Option<Seq<char>>,
) -> bool {
    let cat = category_of(lifecycle);
    &&& d.snapshot.id@ == thread_id
    &&& d.snapshot.title@ == title
    &&& d.snapshot.category@ == cat
    &&& d.snapshot.status@ == status_name(lifecycle_initial(category_lifecycle(cat)->0))
    &&& strs(d.snapshot.tags@) == (if lifecycle == Lifecycle::Record && !tags.contains("decision"@) {
        tags.push("decision"@)
    } else {
        tags
    })
    &&& d.snapshot.created_at == now && d.snapshot.updated_at == now
    &&& d.snapshot.created_by@ == actor && d.snapshot.updated_by@ == actor
    &&& opt_str(d.snapshot.branch) == branch
    &&& strs(d.snapshot.supersedes@) == match source {
        Some(src) => seq![src],
        None => seq![],
    }
    &&& opt_str(d.body) == body
    &&& d.nodes@.len() == inline.len()
    &&& (forall|i: int| 0 <= i < inline.len() ==> new_node(#[trigger] d.nodes@[i], node_ids[i], inline[i], actor, now))
    &&& d.links@.len() == links.len()
    &&& (forall|i: int|
        0 <= i < links.len() ==> {
            let l = #[trigger] d.links@[i];
            &&& (l.target@, l.rel@) == links[i]
            &&& l.created_at == now
            &&& l.created_by@ == actor
        })
    &&& d.evidence.entries@.len() == (if commit is Some { 1int } else { 0 })
    &&& (commit matches Some(c) ==> {
        let e = d.evidence.entries@[0];
        &&& e.id@ == "c-"@ + c.take(if c.len() < 8 { c.len() as int } else { 8 })
        &&& e.kind == EvidenceKind::Commit
        &&& e.ref_target@ == c
        &&& e.created_at == now
        &&& e.created_by@ == actor
    })
}

/// The document `git forum new` writes (see [`new_doc`]). The thread and
/// node IDs are allocated by the caller (one node ID per inline node),
/// the link targets already resolved; the one error is `--link-to`
/// without `--rel`.
pub fn new_thread_document(
    thread_id: &str,
    title: &str,
    body: Option<String>,
    lifecycle: Lifecycle,
    tags: &Vec<String>,
    branch: Option<String>,
    actor: &str,
    now: Timestamp,
    inline: &Vec<InlineNode>,
    node_ids: &Vec<String>,
    link_to: &Vec<String>,
    rel: Option<String>,
    source: Option<String>,
    commit: Option<String>,
) -> (r: Result<ThreadDocument, ForumError>)
    requires
        node_ids@.len() == inline@.len(),
    ensures
        link_to@.len() > 0 && rel is None <==> r is Err,
        r matches Err(ForumError::Config(m)) ==> m@ == "--rel is required when --link-to is used"@,
        r matches Ok(d) ==> new_doc(
            d,
            thread_id@,
            title@,
            opt_str(body),
            lifecycle,
            strs(tags@),
            opt_str(branch),
            actor@,
            now,
            inline@,
            strs(node_ids@),
            new_links(strs(link_to@), rel_text(rel), opt_str(source)),
            opt_str(source),
            opt_str(commit),
        ),
{
    let ghost relv = rel_text(rel);
    let rel_ok = match link_rel(link_to.as_slice(), rel) {
        Ok(x) => x,
        Err(e) => return Err(e),
    };
    let category = lifecycle_to_category(lifecycle);
    let def = match category_definition(category) {
        Some(d) => d,
        None => {
            return Err(ForumError::Config(string_from("thread category is not built in")));
        },
    };
    let mut tv = crate::text::clone_strings(tags);
    crate::internal::commands::thread_new::augment_tags_for_lifecycle(lifecycle, &mut tv);
    let mut nodes: Vec<SnapshotNode> = Vec::new();
    let mut i: usize = 0;
    while i < inline.len()
        invariant
            i <= inline@.len(),
            node_ids@.len() == inline@.len(),
            nodes@.len() == i,
            forall|k: int| 0 <= k < i ==> new_node(#[trigger] nodes@[k], strs(node_ids@)[k], inline@[k], actor@, now),
        decreases inline@.len() - i,
    {
        let n = &inline[i];
        let legacy_label = match n.label {
            Some(l) => Some(string_from(l)),
            None => None,
        };
        nodes.push(SnapshotNode {
            id: string_from(node_ids[i].as_str()),
            kind: n.kind,
            status: NodeStatus::Open,
            created_at: now,
            created_by: string_from(actor),
            reply_to: None,
            legacy_label,
            body: string_from(n.body.as_str()),
        });
        i += 1;
    }
    let ghost lk = new_links(strs(link_to@), relv, opt_str(source));
    let mut links: Vec<LinkRecord> = Vec::new();
    let mut j: usize = 0;
    while j < link_to.len()
        invariant
            j <= link_to@.len(),
            link_to@.len() > 0 ==> (rel_ok matches Some(x) && x@ == relv),
            lk == new_links(strs(link_to@), relv, opt_str(source)),
            links@.len() == j,
            forall|k: int|
                0 <= k < j ==> {
                    let l = #[trigger] links@[k];
                    &&& (l.target@, l.rel@) == lk[k]
                    &&& l.created_at == now
                    &&& l.created_by@ == actor@
                },
        decreases link_to@.len() - j,
    {
        let r = match &rel_ok {
            Some(x) => string_from(x.as_str()),
            None => String::new(),
        };
        links.push(LinkRecord {
            target: string_from(link_to[j].as_str()),
            rel: r,
            created_at: now,
            created_by: string_from(actor),
        });
        j += 1;
    }
    let mut supersedes: Vec<String> = Vec::new();
    match &source {
        Some(src) => {
            links.push(LinkRecord {
                target: string_from(src.as_str()),
                rel: string_from("supersedes"),
                created_at: now,
                created_by: string_from(actor),
            });
            supersedes.push(string_from(src.as_str()));
        },
        None => {},
    }
    proof {
        assert(strs(supersedes@) =~= match opt_str(source) {
            Some(src) => seq![src],
            None => Seq::<Seq<char>>::empty(),
        });
    }
    let mut entries: Vec<EvidenceRecord> = Vec::new();
    match &commit {
        Some(sha) => {
            entries.push(EvidenceRecord {
                id: short_evidence_id(sha.as_str()),
                kind: EvidenceKind::Commit,
                ref_target: string_from(sha.as_str()),
                created_at: now,
                created_by: string_from(actor),
            });
        },
        None => {},
    }
    let snapshot = ThreadSnapshot {
        id: string_from(thread_id),
        title: string_from(title),
        category: string_from(category),
        status: string_from(def.initial_status.as_str()),
        tags: tv,
        created_at: now,
        created_by: string_from(actor),
        updated_at: now,
        updated_by: string_from(actor),
        branch: copy_opt(&branch),
        supersedes,
    };
    Ok(ThreadDocument { snapshot, body: copy_opt(&body), nodes, links, evidence: EvidenceFile { entries } })
}

} // verus!
