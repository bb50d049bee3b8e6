use git_forum::internal::commands::shared::{commit_instant, since_date};
use git_forum::internal::error::ForumError;
use git_forum::internal::evidence::Timestamp;

#[test]
fn since_date_reads_iso_day_at_midnight() {
    assert_eq!(since_date("2024-01-02"), Some(Timestamp { secs: 1_704_153_600, nanos: 0 }));
}

#[test]
fn since_date_reads_rfc3339() {
    assert_eq!(since_date("2024-01-02T03:04:05Z"), Some(Timestamp { secs: 1_704_164_645, nanos: 0 }));
    assert_eq!(
        since_date("2024-01-02T03:04:05.5+01:00"),
        Some(Timestamp { secs: 1_704_164_645 - 3600, nanos: 500_000_000 })
    );
}

#[test]
fn since_date_leaves_revisions_to_git() {
    assert_eq!(since_date("HEAD~3"), None);
    assert_eq!(since_date("v1.2"), None);
}

#[test]
fn commit_instant_trims_and_reports_bad_text() {
    assert_eq!(
        commit_instant("HEAD", "  2024-01-02T03:04:05+00:00\n"),
        Ok(Timestamp { secs: 1_704_164_645, nanos: 0 })
    );
    match commit_instant("HEAD", "yesterday") {
        Err(ForumError::Git(m)) => assert!(m.starts_with("cannot parse timestamp for 'HEAD': ")),
        other => panic!("unexpected {other:?}"),
    }
}
