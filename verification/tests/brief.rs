use git_forum::internal::commands::brief::{build_json, render_plaintext, IncomingLinkCounts, LinkCount};
use git_forum::internal::event::NodeType;
use git_forum::internal::evidence::{Evidence, EvidenceKind, Timestamp};
use git_forum::internal::node::Node;
use git_forum::internal::thread::{ThreadLink, ThreadState};

fn node(id: &str, node_type: NodeType, body: &str) -> Node {
    Node {
        node_id: id.to_string(),
        node_type,
        body: body.to_string(),
        actor: "ai/x".to_string(),
        created_at: Timestamp { secs: 1777550400, nanos: 0 },
        resolved: false,
        retracted: false,
        incorporated: false,
        reply_to: None,
    }
}

fn make_state() -> ThreadState {
    ThreadState {
        id: "RFC-x9k2".into(),
        category: "rfc".into(),
        title: "Replace LIKE scan with FTS5".into(),
        status: "done".into(),
        created_at: Timestamp { secs: 1777550400, nanos: 0 },
        created_by: "ai/agent".into(),
        tags: vec!["cross-cutting".into()],
        links: vec![ThreadLink { target_thread_id: "RFC-other".into(), rel: "relates-to".into() }],
        ..ThreadState::default()
    }
}

fn implements_twice() -> IncomingLinkCounts {
    let mut incoming = IncomingLinkCounts::default();
    incoming.insert("implements", 2);
    incoming
}

#[test]
fn plaintext_does_not_name_linked_threads() {
    let state = make_state();
    let incoming = implements_twice();
    let out = render_plaintext(&state, &incoming);
    assert!(out.contains("in=2 implements"));
    assert!(out.contains("out=1 relates-to"));
    assert!(!out.contains("RFC-other"));
}

#[test]
fn plaintext_minimal_thread_renders() {
    let state = ThreadState {
        id: "TASK-123".into(),
        category: "task".into(),
        title: "Lonely task".into(),
        status: "open".into(),
        created_at: Timestamp { secs: 1767225600, nanos: 0 },
        created_by: "human/alice".into(),
        ..ThreadState::default()
    };
    let out = render_plaintext(&state, &IncomingLinkCounts::default());
    assert!(out.contains("TASK-123"));
    assert!(out.contains("Lonely task"));
    assert!(out.contains("links:    in=0, out=0"));
    assert!(out.contains("evidence: 0"));
    assert!(out.contains("summary:  -"));
}

#[test]
fn json_schema_has_required_fields() {
    let state = make_state();
    let incoming = implements_twice();
    let json = build_json(&state, &incoming);
    assert_eq!(json.id, "RFC-x9k2");
    assert_eq!(json.lifecycle, "proposal");
    assert_eq!(json.status, "done");
    assert_eq!(json.tags, vec!["cross-cutting".to_string()]);
    assert_eq!(json.links_in.len(), 1);
    assert_eq!(json.links_in[0].rel, "implements");
    assert_eq!(json.links_in[0].count, 2);
    assert_eq!(json.links_out.len(), 1);
    assert_eq!(json.links_out[0].rel, "relates-to");
}

fn count_of(v: &[LinkCount], rel: &str) -> Option<usize> {
    v.iter().find(|c| c.rel == rel).map(|c| c.count)
}

#[test]
fn node_counts_collapse_legacy_variants() {
    let state = ThreadState {
        id: "RFC-1".into(),
        category: "rfc".into(),
        title: "T".into(),
        status: "draft".into(),
        created_by: "ai/x".into(),
        nodes: vec![
            node("n1", NodeType::Claim, "a"),
            node("n2", NodeType::Question, "b"),
            node("n3", NodeType::Approval, "c"),
        ],
        ..ThreadState::default()
    };
    let json = build_json(&state, &IncomingLinkCounts::default());
    assert_eq!(count_of(&json.node_counts, "comment"), Some(2));
    assert_eq!(count_of(&json.node_counts, "approval"), Some(1));
    assert_eq!(json.node_counts.len(), 2);
}

#[test]
fn incoming_insert_keeps_order_and_replaces() {
    let mut incoming = IncomingLinkCounts::default();
    incoming.insert("relates-to", 1);
    incoming.insert("implements", 2);
    incoming.insert("relates-to", 4);
    let rels: Vec<&str> = incoming.by_rel.iter().map(|c| c.rel.as_str()).collect();
    assert_eq!(rels, vec!["implements", "relates-to"]);
    assert_eq!(incoming.by_rel[1].count, 4);
    assert_eq!(incoming.total(), 6);
}

#[test]
fn plaintext_full_digest_lines() {
    let mut state = make_state();
    state.branch = Some("feat/fts".into());
    state.links.push(ThreadLink { target_thread_id: "RFC-b".into(), rel: "implements".into() });
    state.links.push(ThreadLink { target_thread_id: "RFC-c".into(), rel: "relates-to".into() });
    let mut objection = node("n1", NodeType::Objection, "too slow");
    objection.resolved = false;
    let mut done_action = node("n2", NodeType::Action, "do it");
    done_action.resolved = true;
    let old_summary = node("n3", NodeType::Summary, "first");
    let mut retracted = node("n4", NodeType::Summary, "withdrawn");
    retracted.retracted = true;
    let summary = node("n5", NodeType::Summary, "line one\nline two");
    state.nodes = vec![objection, done_action, old_summary, summary, retracted];
    state.evidence_items = vec![
        Evidence { evidence_id: "e1".into(), kind: EvidenceKind::Commit, ref_target: "abc".into(), locator: None },
        Evidence { evidence_id: "e2".into(), kind: EvidenceKind::Commit, ref_target: "def".into(), locator: None },
        Evidence { evidence_id: "e3".into(), kind: EvidenceKind::Doc, ref_target: "x.md".into(), locator: None },
    ];
    let out = render_plaintext(&state, &IncomingLinkCounts::default());
    let lines: Vec<&str> = out.split('\n').collect();
    assert_eq!(lines[0], "RFC-x9k2  proposal/done   cross-cutting");
    assert_eq!(lines[1], "title:    Replace LIKE scan with FTS5");
    assert_eq!(lines[2], "created:  2026-04-30 by ai/agent");
    assert_eq!(lines[3], "branch:   feat/fts");
    assert_eq!(lines[4], "links:    in=0, out=3 (1 implements, 2 relates-to)");
    assert_eq!(lines[5], "nodes:    5 (1 action, 3 comment, 1 objection, 1 open objections, 0 open actions)");
    assert_eq!(lines[6], "evidence: 3 (2 commit, 1 doc)");
    assert_eq!(lines[7], "summary:  \"line one line two\"");
    assert_eq!(lines.len(), 9);
    assert_eq!(lines[8], "");
}

#[test]
fn json_counts_and_summary() {
    let mut state = make_state();
    state.nodes = vec![node("n1", NodeType::Objection, "no"), node("n2", NodeType::Summary, "sum")];
    let json = build_json(&state, &IncomingLinkCounts::default());
    assert_eq!(json.open_objections, 1);
    assert_eq!(json.open_actions, 0);
    assert_eq!(json.evidence_count, 0);
    assert_eq!(json.latest_summary, Some("sum".to_string()));
    assert_eq!(json.created_at, "2026-04-30T12:00:00Z");
    assert_eq!(json.branch, None);
    assert!(json.links_in.is_empty());
}

#[test]
fn plaintext_same_for_other_link_targets() {
    let a = make_state();
    let mut b = make_state();
    b.links[0].target_thread_id = "RFC-elsewhere".into();
    let inc = implements_twice();
    assert_eq!(render_plaintext(&a, &inc), render_plaintext(&b, &inc));
}
