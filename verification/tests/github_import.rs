use git_forum::internal::evidence::Timestamp;
use git_forum::internal::github::{GhAssignee, GhAuthor, GhIssue, GhLabel, GhMilestone};
use git_forum::internal::github_import::format_issue_body;

fn make_issue(labels: Vec<&str>, assignees: Vec<&str>, milestone: Option<&str>) -> GhIssue {
    GhIssue {
        number: 1,
        title: "Test".into(),
        body: Some("Issue body".into()),
        state: "OPEN".into(),
        created_at: Timestamp { secs: 1767225600, nanos: 0 },
        author: GhAuthor { login: "alice".into() },
        labels: labels.into_iter().map(|n| GhLabel { name: n.into() }).collect(),
        assignees: assignees.into_iter().map(|l| GhAssignee { login: l.into() }).collect(),
        milestone: milestone.map(|t| GhMilestone { title: t.into() }),
    }
}

#[test]
fn format_body_plain() {
    let issue = make_issue(vec![], vec![], None);
    assert_eq!(format_issue_body(&issue), "Issue body");
}

#[test]
fn format_body_with_labels() {
    let issue = make_issue(vec!["bug", "urgent"], vec![], None);
    let body = format_issue_body(&issue);
    assert!(body.starts_with("**Labels:** bug, urgent\n"));
    assert!(body.contains("Issue body"));
}

#[test]
fn format_body_with_all_metadata() {
    let issue = make_issue(vec!["bug"], vec!["alice", "bob"], Some("v1.0"));
    let body = format_issue_body(&issue);
    assert!(body.contains("**Labels:** bug"));
    assert!(body.contains("**Assignees:** alice, bob"));
    assert!(body.contains("**Milestone:** v1.0"));
    assert!(body.contains("Issue body"));
}

#[test]
fn format_body_no_body() {
    let mut issue = make_issue(vec!["bug"], vec![], None);
    issue.body = None;
    let body = format_issue_body(&issue);
    assert_eq!(body, "**Labels:** bug\n");
}

#[test]
fn format_body_metadata_then_blank_line_then_body() {
    let issue = make_issue(vec!["bug"], vec![], Some("v1"));
    assert_eq!(format_issue_body(&issue), "**Labels:** bug\n**Milestone:** v1\n\nIssue body");
}

use git_forum::internal::github::{GhComment, GhCommentUser};
use git_forum::internal::github_import::{already_imported_error, import_closes, import_thread_body, imported_comment_body};

#[test]
fn imported_comments_and_decisions() {
    let c = GhComment {
        id: 1,
        body: Some("text".into()),
        user: GhCommentUser { login: "bob".into() },
        created_at: Timestamp { secs: 1767225600, nanos: 0 },
    };
    assert_eq!(imported_comment_body(&c), "**@bob** (2026-01-01T00:00:00Z)\n\ntext");
    assert_eq!(
        already_imported_error("https://github.com/o/r/issues/1", "T-1").message(),
        "repository error: GitHub issue https://github.com/o/r/issues/1 already imported as T-1"
    );
    let mut issue = make_issue(vec![], vec![], None);
    issue.body = None;
    assert_eq!(import_thread_body(&issue), None);
    assert!(!import_closes(&issue));
    issue.state = "CLOSED".into();
    assert!(import_closes(&issue));
}
