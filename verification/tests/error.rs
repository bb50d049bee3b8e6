use git_forum::internal::error::{CliDiagnostic, ForumError};

#[test]
fn diagnostic_display() {
    let diag = CliDiagnostic {
        reason: "transition denied".into(),
        violated_rule: Some("no_open_objections".into()),
        hint: Some("resolve all objections first".into()),
    };
    let s = diag.to_string();
    assert!(s.contains("transition denied"));
    assert!(s.contains("no_open_objections"));
    assert!(s.contains("resolve all objections first"));
}

#[test]
fn diagnostic_display_exact() {
    let diag = CliDiagnostic { reason: "bad".into(), violated_rule: None, hint: Some("fix".into()) };
    assert_eq!(diag.to_string(), "error: bad\n  hint: fix");
}

#[test]
fn error_display() {
    let err = ForumError::Policy("no open objections required".into());
    assert_eq!(err.message(), "policy error: no open objections required");
}
