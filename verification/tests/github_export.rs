use git_forum::internal::event::NodeType;
use git_forum::internal::evidence::{Evidence, EvidenceKind, Timestamp};
use git_forum::internal::github_export::{
    count_live_nodes, export_would_close, extract_marker, find_existing_export,
    format_issue_body, format_node_as_comment, parse_github_issue_url,
};
use git_forum::internal::node::Node;
use git_forum::internal::thread::ThreadState;

fn make_node(node_id: &str, node_type: NodeType, body: &str) -> Node {
    Node {
        node_id: node_id.to_string(),
        node_type,
        body: body.to_string(),
        actor: "human/alice".to_string(),
        created_at: Timestamp { secs: 1767225600, nanos: 0 },
        resolved: false,
        retracted: false,
        incorporated: false,
        reply_to: None,
    }
}

#[test]
fn format_node_includes_marker() {
    let node = make_node("abc123", NodeType::Claim, "hello world");
    let body = format_node_as_comment(&node);
    assert!(body.starts_with("<!-- git-forum:abc123 -->"));
    assert!(body.contains("**[claim]** by human/alice"));
    assert!(body.contains("hello world"));
}

#[test]
fn extract_marker_roundtrip() {
    let node = make_node("abc123def456", NodeType::Objection, "some text");
    let body = format_node_as_comment(&node);
    let extracted = extract_marker(&body);
    assert_eq!(extracted.as_deref(), Some("abc123def456"));
}

#[test]
fn extract_marker_no_marker() {
    assert_eq!(extract_marker("just a regular comment"), None);
}

#[test]
fn parse_url_valid() {
    let result = parse_github_issue_url("https://github.com/owner/repo/issues/42");
    assert_eq!(result, Some(("owner/repo".to_string(), 42)));
}

#[test]
fn parse_url_invalid() {
    assert_eq!(parse_github_issue_url("https://github.com/owner/repo/pulls/1"), None);
    assert_eq!(parse_github_issue_url("https://example.com/issues/1"), None);
}

#[test]
fn parse_url_rejects_a_bad_number() {
    assert_eq!(parse_github_issue_url("https://github.com/o/r/issues/4x"), None);
    assert_eq!(parse_github_issue_url("https://github.com/o/r/issues/99999999999999999999"), None);
}

#[test]
fn export_body_and_close_rule() {
    let s = ThreadState { id: "RFC-0001".into(), body: Some("Body".into()), ..ThreadState::default() };
    assert_eq!(format_issue_body(&s), "Body\n\n---\n*Exported from git-forum thread `RFC-0001`*");
    assert!(export_would_close("closed"));
    assert!(export_would_close("rejected"));
    assert!(!export_would_close("open"));
}

#[test]
fn existing_export_and_live_nodes() {
    let mut s = ThreadState::default();
    assert_eq!(find_existing_export(&s), None);
    let e = Evidence {
        evidence_id: String::new(),
        kind: EvidenceKind::External,
        ref_target: "https://github.com/o/r/issues/7".into(),
        locator: None,
    };
    s.evidence_items.push(e);
    assert_eq!(find_existing_export(&s), Some("https://github.com/o/r/issues/7".to_string()));
    let mut gone = make_node("b", NodeType::Comment, "x");
    gone.retracted = true;
    assert_eq!(count_live_nodes(&vec![make_node("a", NodeType::Comment, "x"), gone]), 1);
}

use git_forum::internal::github::GhExistingComment;
use git_forum::internal::github_export::{github_issue_url, plan_comment, re_export_target, CommentAction};

#[test]
fn re_export_plans_each_comment() {
    let n = make_node("abc", NodeType::Comment, "hello");
    let text = format_node_as_comment(&n);
    assert!(matches!(plan_comment(&vec![], &n), CommentAction::Create { .. }));
    let same = vec![GhExistingComment { id: 5, body: text.clone() }];
    assert!(matches!(plan_comment(&same, &n), CommentAction::Skip));
    let stale = vec![GhExistingComment { id: 7, body: "<!-- git-forum:abc -->\nold".into() }];
    match plan_comment(&stale, &n) {
        CommentAction::Update { comment_id, body } => {
            assert_eq!(comment_id, 7);
            assert_eq!(body, text);
        }
        _ => panic!("expected an update"),
    }
    assert_eq!(github_issue_url("o/r", 42), "https://github.com/o/r/issues/42");
    assert_eq!(re_export_target("https://github.com/o/r/issues/3", "o/r").unwrap(), 3);
    assert!(re_export_target("https://github.com/o/r/issues/3", "x/y").is_err());
    assert!(re_export_target("nope", "o/r").is_err());
}

#[test]
fn issue_url_round_trips() {
    for (repo, n) in [("owner/repo", 42u64), ("a/b", 0), ("x-y/z.z", u64::MAX)] {
        assert_eq!(parse_github_issue_url(&github_issue_url(repo, n)), Some((repo.to_string(), n)));
    }
}
