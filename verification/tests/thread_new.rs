use git_forum::internal::commands::thread_new::{
    check_supersede, commit_message_parts, created_message, inline_nodes, link_rel,
    new_thread_content, new_thread_edit_hint, short_evidence_id, NewThreadSource, ThreadNewInline,
};
use git_forum::internal::error::ForumError;
use git_forum::internal::event::{Lifecycle, NodeType};

#[test]
fn commit_message_splits_subject_and_body() {
    let (s, b) = commit_message_parts("Fix parser\n\n\nLonger text\nsecond line");
    assert_eq!(s, "Fix parser");
    assert_eq!(b, "Longer text\nsecond line");
    let (s, b) = commit_message_parts("Only subject");
    assert_eq!(s, "Only subject");
    assert_eq!(b, "");
    assert_eq!(commit_message_parts(""), (String::new(), String::new()));
}

#[test]
fn execution_cannot_supersede_proposal() {
    assert!(check_supersede(Lifecycle::Proposal, Lifecycle::Execution).is_err());
    assert!(check_supersede(Lifecycle::Proposal, Lifecycle::Proposal).is_ok());
    assert!(check_supersede(Lifecycle::Execution, Lifecycle::Proposal).is_ok());
}

#[test]
fn content_from_each_source() {
    let c = new_thread_content(
        None,
        None,
        NewThreadSource::FromThread { id: "RFC-1".into(), title: "Old".into(), body: Some("b".into()) },
    )
    .unwrap();
    assert_eq!(c.title, "v2: Old");
    assert_eq!(c.body.as_deref(), Some("b"));
    assert_eq!(c.supersedes.as_deref(), Some("RFC-1"));
    let c = new_thread_content(
        None,
        None,
        NewThreadSource::FromCommit { sha: "abc".into(), message: "Subject\n\nBody".into() },
    )
    .unwrap();
    assert_eq!(c.title, "Subject");
    assert_eq!(c.body.as_deref(), Some("Body"));
    assert_eq!(c.commit_ref.as_deref(), Some("abc"));
    let c = new_thread_content(
        Some("T".into()),
        None,
        NewThreadSource::FromCommit { sha: "abc".into(), message: "Subject".into() },
    )
    .unwrap();
    assert_eq!(c.title, "T");
    assert_eq!(c.body, None);
    match new_thread_content(None, None, NewThreadSource::Fresh) {
        Err(ForumError::Config(m)) => assert_eq!(m, "title is required (or use --from-commit / --from-thread)"),
        _ => panic!("expected the title error"),
    }
}

#[test]
fn links_evidence_and_messages() {
    assert_eq!(link_rel(&[], None).unwrap(), None);
    assert!(link_rel(&["RFC-1".to_string()], None).is_err());
    assert_eq!(link_rel(&["RFC-1".to_string()], Some("implements".into())).unwrap().as_deref(), Some("implements"));
    assert_eq!(short_evidence_id("0123456789abcdef"), "c-01234567");
    assert_eq!(short_evidence_id("abc"), "c-abc");
    assert_eq!(created_message("T-1", None), "Created T-1");
    assert_eq!(created_message("T-2", Some("T-1")), "Created T-2 (supersedes T-1)");
    assert_eq!(new_thread_edit_hint(Lifecycle::Proposal), "Compose body for new proposal thread");
}

#[test]
fn inline_nodes_keep_their_order_and_labels() {
    let inline = ThreadNewInline {
        claim: vec!["c".into()],
        question: vec![],
        objection: vec!["o1".into(), "o2".into()],
        action: vec!["a".into()],
        risk: vec!["r".into()],
        summary: vec![],
    };
    let nodes = inline_nodes(&inline);
    let got: Vec<(NodeType, Option<&str>, &str)> =
        nodes.iter().map(|n| (n.kind, n.label, n.body.as_str())).collect();
    assert_eq!(
        got,
        vec![
            (NodeType::Objection, None, "o1"),
            (NodeType::Objection, None, "o2"),
            (NodeType::Action, None, "a"),
            (NodeType::Comment, Some("claim"), "c"),
            (NodeType::Comment, Some("risk"), "r"),
        ]
    );
}
