use git_forum::internal::commands::verify::{remediation_hint, VerifyReport};
use git_forum::internal::event::NodeType;
use git_forum::internal::evidence::Timestamp;
use git_forum::internal::node::Node;
use git_forum::internal::policy::GuardViolation;
use git_forum::internal::thread::ThreadState;

fn node(id: &str, t: NodeType, resolved: bool) -> Node {
    Node {
        node_id: id.into(),
        node_type: t,
        body: String::new(),
        actor: "human/a".into(),
        created_at: Timestamp { secs: 0, nanos: 0 },
        resolved,
        retracted: false,
        incorporated: false,
        reply_to: None,
    }
}

#[test]
fn hints_name_open_nodes() {
    let mut s = ThreadState::default();
    s.nodes.push(node("0123456789abcdef0123", NodeType::Action, false));
    s.nodes.push(node("done-action", NodeType::Action, true));
    s.nodes.push(node("obj1", NodeType::Objection, false));
    assert_eq!(
        remediation_hint("no_open_actions", &s, "T-1"),
        "resolve each with `resolve T-1 <NODE_ID>` (open: 0123456789abcdef) or use --resolve-open-actions"
    );
    assert_eq!(
        remediation_hint("no_open_objections", &s, "T-1"),
        "resolve each with `resolve T-1 <NODE_ID>` (open: obj1)"
    );
    assert_eq!(remediation_hint("one_human_approval", &s, "T-1"), "supply --approve human/<name>");
    assert_eq!(remediation_hint("other", &s, "T-1"), "");
    assert_eq!(remediation_hint("no_open_actions", &ThreadState::default(), "T-1"), "");
}

#[test]
fn report_passes_without_violations() {
    let mut r = VerifyReport { thread_id: "T-1".into(), violations: vec![], lookahead: vec![], linked_advisories: vec![] };
    assert!(r.passed());
    r.violations.push(GuardViolation { rule: "x".into(), reason: "y".into() });
    assert!(!r.passed());
}
