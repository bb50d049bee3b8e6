use git_forum::internal::commands::visibility::{
    decide_visibility, irrevocable_warning, visibility_done_line, Visibility, VisibilityChange,
};
use git_forum::internal::error::ForumError;

#[test]
fn visibility_changes() {
    assert!(matches!(
        decide_visibility("T-1", Visibility::Public, Visibility::Public, false, false),
        VisibilityChange::Unchanged
    ));
    match decide_visibility("T-1", Visibility::Public, Visibility::Private, false, false) {
        VisibilityChange::Refused(ForumError::Repo(m)) => assert_eq!(
            m,
            "refusing to flip T-1 public → private from a non-interactive shell without --force"
        ),
        _ => panic!("expected a refusal"),
    }
    match decide_visibility("T-1", Visibility::Public, Visibility::Private, true, false) {
        VisibilityChange::Apply { warn, message } => {
            assert!(warn);
            assert_eq!(message, "visibility set T-1 -> private");
        }
        _ => panic!("expected the change"),
    }
    match decide_visibility("T-1", Visibility::Private, Visibility::Public, false, false) {
        VisibilityChange::Apply { warn, message } => {
            assert!(!warn);
            assert_eq!(message, "visibility set T-1 -> public");
        }
        _ => panic!("expected the change"),
    }
    assert_eq!(irrevocable_warning("T-1").len(), 3);
    assert_eq!(visibility_done_line("T-1", Visibility::Public), "T-1 -> visibility public");
}
