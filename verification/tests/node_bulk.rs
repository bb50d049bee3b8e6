use git_forum::internal::commands::node_bulk::{
    applied_line, apply_node_lifecycle, lifecycle_commit_message, NodeLifecycleOp,
};
use git_forum::internal::event::NodeType;
use git_forum::internal::evidence::Timestamp;
use git_forum::internal::node::Node;

fn node(id: &str) -> Node {
    Node {
        node_id: id.into(),
        node_type: NodeType::Objection,
        body: "b".into(),
        actor: "ai/x".into(),
        created_at: Timestamp { secs: 0, nanos: 0 },
        resolved: false,
        retracted: false,
        incorporated: false,
        reply_to: None,
    }
}

#[test]
fn resolve_marks_named_nodes_and_reports_missing() {
    let mut nodes = vec![node("n1"), node("n2"), node("n3")];
    nodes[1].incorporated = true;
    let targets: Vec<String> = vec!["n2".into(), "zz".into(), "n3".into()];
    let out = apply_node_lifecycle(&mut nodes, &targets, NodeLifecycleOp::Resolve);
    assert_eq!(out.applied, vec!["n2".to_string(), "n3".to_string()]);
    assert_eq!(out.missing, vec!["zz".to_string()]);
    assert!(!nodes[0].resolved);
    assert!(nodes[1].resolved && !nodes[1].incorporated && !nodes[1].retracted);
    assert!(nodes[2].resolved);
}

#[test]
fn reopen_clears_status_and_twice_is_once() {
    let mut nodes = vec![node("a"), node("b")];
    nodes[0].retracted = true;
    nodes[1].resolved = true;
    let targets: Vec<String> = vec!["a".into(), "b".into()];
    apply_node_lifecycle(&mut nodes, &targets, NodeLifecycleOp::Reopen);
    assert!(nodes.iter().all(|n| !n.retracted && !n.resolved && !n.incorporated));
    let mut again = nodes.clone();
    apply_node_lifecycle(&mut again, &targets, NodeLifecycleOp::Retract);
    let once: Vec<bool> = again.iter().map(|n| n.retracted).collect();
    apply_node_lifecycle(&mut again, &targets, NodeLifecycleOp::Retract);
    let twice: Vec<bool> = again.iter().map(|n| n.retracted).collect();
    assert_eq!(once, twice);
    assert_eq!(once, vec![true, true]);
}

#[test]
fn lifecycle_messages() {
    assert_eq!(lifecycle_commit_message("Resolved", 2), "node lifecycle: resolved (2)");
    assert_eq!(applied_line("Retracted", "0123456789abcdef0123"), "Retracted 0123456789abcdef");
}
