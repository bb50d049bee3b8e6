use git_forum::internal::commands::thread_new::InlineNode;
use git_forum::internal::error::ForumError;
use git_forum::internal::event::Lifecycle;
use git_forum::internal::evidence::{Evidence, EvidenceKind, Timestamp};
use git_forum::internal::node::{Node, NodeType};
use git_forum::internal::snapshot::{
    new_thread_document, project_state_to_doc, LegacyThreadState, NodeStatus,
};
use git_forum::internal::thread::{ThreadKind, ThreadLink};

fn at(secs: i64) -> Timestamp {
    Timestamp { secs, nanos: 0 }
}

fn node(id: &str, t: NodeType, resolved: bool, retracted: bool, reply_to: Option<&str>) -> Node {
    Node {
        node_id: id.to_string(),
        node_type: t,
        body: format!("body of {id}"),
        actor: "human/bob".to_string(),
        created_at: at(200),
        resolved,
        retracted,
        incorporated: false,
        reply_to: reply_to.map(String::from),
    }
}

fn legacy_state() -> LegacyThreadState {
    LegacyThreadState {
        id: "ASK-0001".to_string(),
        kind: ThreadKind::Issue,
        lifecycle: Lifecycle::Execution,
        title: "Crash on start".to_string(),
        body: Some("It crashes.".to_string()),
        tags: vec!["ui".to_string(), "Bad Tag".to_string()],
        branch: Some("fix/crash".to_string()),
        created_at: at(100),
        created_by: "human/alice".to_string(),
        nodes: vec![
            node("n/1", NodeType::Claim, false, false, None),
            node("n2", NodeType::Objection, true, false, Some("n/1")),
            node("n3", NodeType::Action, true, true, None),
        ],
        links: vec![ThreadLink { target_thread_id: "RFC-0002".to_string(), rel: "implements".to_string() }],
        evidence_items: vec![Evidence {
            evidence_id: "e1".to_string(),
            kind: EvidenceKind::Commit,
            ref_target: "abc123".to_string(),
            locator: None,
        }],
    }
}

#[test]
fn project_state_to_doc_maps_every_part() {
    let (doc, omissions) = project_state_to_doc(&legacy_state()).unwrap();
    assert_eq!(doc.snapshot.id, "ASK-0001");
    assert_eq!(doc.snapshot.title, "Crash on start");
    assert_eq!(doc.snapshot.category, "task");
    assert_eq!(doc.snapshot.status, "open");
    assert_eq!(doc.snapshot.tags, vec!["ui".to_string(), "bug".to_string()]);
    assert_eq!(doc.snapshot.created_at, at(100));
    assert_eq!(doc.snapshot.updated_at, at(100));
    assert_eq!(doc.snapshot.updated_by, "human/alice");
    assert_eq!(doc.snapshot.branch.as_deref(), Some("fix/crash"));
    assert_eq!(doc.body.as_deref(), Some("It crashes."));

    assert_eq!(doc.nodes.len(), 3);
    assert_eq!(doc.nodes[0].id, "n-1");
    assert_eq!(doc.nodes[0].kind, NodeType::Comment);
    assert_eq!(doc.nodes[0].legacy_label.as_deref(), Some("claim"));
    assert_eq!(doc.nodes[0].status, NodeStatus::Open);
    assert_eq!(doc.nodes[1].status, NodeStatus::Resolved);
    assert_eq!(doc.nodes[1].reply_to.as_deref(), Some("n-1"));
    assert_eq!(doc.nodes[1].legacy_label, None);
    assert_eq!(doc.nodes[2].status, NodeStatus::Retracted);

    assert_eq!(doc.links.len(), 1);
    assert_eq!(doc.links[0].target, "RFC-0002");
    assert_eq!(doc.links[0].rel, "implements");
    assert_eq!(doc.links[0].created_at, at(100));
    assert_eq!(doc.evidence.entries.len(), 1);
    assert_eq!(doc.evidence.entries[0].id, "e1");
    assert_eq!(doc.evidence.entries[0].created_by, "human/alice");

    assert_eq!(omissions.len(), 1);
    assert_eq!(omissions[0].kind, "tag");
    assert_eq!(omissions[0].item, "Bad Tag");
}

#[test]
fn project_state_to_doc_proposal_starts_as_draft() {
    let mut s = legacy_state();
    s.kind = ThreadKind::Rfc;
    s.lifecycle = Lifecycle::Proposal;
    s.tags = Vec::new();
    let (doc, omissions) = project_state_to_doc(&s).unwrap();
    assert_eq!(doc.snapshot.category, "rfc");
    assert_eq!(doc.snapshot.status, "draft");
    assert!(doc.snapshot.tags.is_empty());
    assert!(omissions.is_empty());
}

#[test]
fn new_thread_document_builds_the_snapshot() {
    let inline = vec![InlineNode { kind: NodeType::Comment, label: Some("claim"), body: "first".to_string() }];
    let doc = new_thread_document(
        "a7f3b2x1",
        "Decide the format",
        Some("Body".to_string()),
        Lifecycle::Record,
        &vec!["docs".to_string()],
        None,
        "human/alice",
        at(500),
        &inline,
        &vec!["n0000001".to_string()],
        &vec!["RFC-0001".to_string()],
        Some("implements".to_string()),
        None,
        Some("0123456789abcdef".to_string()),
    )
    .unwrap();
    assert_eq!(doc.snapshot.id, "a7f3b2x1");
    assert_eq!(doc.snapshot.category, "task");
    assert_eq!(doc.snapshot.status, "open");
    assert_eq!(doc.snapshot.tags, vec!["docs".to_string(), "decision".to_string()]);
    assert_eq!(doc.snapshot.created_by, "human/alice");
    assert_eq!(doc.snapshot.created_at, at(500));
    assert!(doc.snapshot.supersedes.is_empty());
    assert_eq!(doc.nodes.len(), 1);
    assert_eq!(doc.nodes[0].id, "n0000001");
    assert_eq!(doc.nodes[0].body, "first");
    assert_eq!(doc.nodes[0].status, NodeStatus::Open);
    assert_eq!(doc.links.len(), 1);
    assert_eq!(doc.links[0].target, "RFC-0001");
    assert_eq!(doc.links[0].rel, "implements");
    assert_eq!(doc.evidence.entries.len(), 1);
    assert_eq!(doc.evidence.entries[0].id, "c-01234567");
    assert_eq!(doc.evidence.entries[0].ref_target, "0123456789abcdef");
}

#[test]
fn new_thread_document_needs_rel_with_link_to() {
    let r = new_thread_document(
        "a7f3b2x1",
        "T",
        None,
        Lifecycle::Proposal,
        &Vec::new(),
        None,
        "human/alice",
        at(1),
        &Vec::new(),
        &Vec::new(),
        &vec!["RFC-0001".to_string()],
        None,
        None,
        None,
    );
    match r {
        Err(ForumError::Config(m)) => assert_eq!(m, "--rel is required when --link-to is used"),
        _ => panic!("expected a config error"),
    }
}
