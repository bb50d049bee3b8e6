use git_forum::internal::commands::diff::{body_file_text, body_revisions, diff_plan, labelled_diff, DiffPlan};
use git_forum::internal::diff::parse_rev_arg;
use git_forum::internal::error::ForumError;

#[test]
fn diff_parse_rev_single() {
    assert_eq!(parse_rev_arg("1", 3).unwrap(), (0, 1));
    assert_eq!(parse_rev_arg("3", 3).unwrap(), (2, 3));
}

#[test]
fn diff_parse_rev_range() {
    assert_eq!(parse_rev_arg("0..2", 3).unwrap(), (0, 2));
    assert_eq!(parse_rev_arg("1..3", 3).unwrap(), (1, 3));
}

#[test]
fn diff_parse_rev_zero_alone_fails() {
    assert!(parse_rev_arg("0", 3).is_err());
}

#[test]
fn diff_parse_rev_same_fails() {
    assert!(parse_rev_arg("2..2", 3).is_err());
}

#[test]
fn diff_parse_rev_out_of_range() {
    assert!(parse_rev_arg("5", 3).is_err());
    assert!(parse_rev_arg("0..5", 3).is_err());
}

#[test]
fn parse_rev_error_messages() {
    assert_eq!(
        parse_rev_arg("x..2", 3),
        Err(ForumError::Config("invalid revision number 'x' in --rev x..2".into()))
    );
    assert_eq!(
        parse_rev_arg("1..", 3),
        Err(ForumError::Config("invalid revision number '' in --rev 1..".into()))
    );
    assert_eq!(parse_rev_arg("abc", 3), Err(ForumError::Config("invalid revision number 'abc' in --rev".into())));
    assert_eq!(
        parse_rev_arg("4", 3),
        Err(ForumError::Config("revision 4 does not exist; latest revision is 3".into()))
    );
    assert_eq!(parse_rev_arg("2..2", 3), Err(ForumError::Config("cannot diff revision 2 against itself".into())));
    assert_eq!(
        parse_rev_arg("0", 3),
        Err(ForumError::Config("revision 0 has no previous revision to diff against; use --rev 0..N".into()))
    );
    assert_eq!(parse_rev_arg("2..1", 3), Ok((2, 1)));
    assert_eq!(parse_rev_arg("+2", 3), Ok((1, 2)));
}

#[test]
fn body_revisions_skip_unchanged_bodies() {
    let bodies: Vec<String> = ["", "a", "a", "b", "a"].iter().map(|s| s.to_string()).collect();
    assert_eq!(body_revisions(&bodies), vec!["", "a", "b", "a"]);
}

#[test]
fn diff_plan_cases() {
    assert_eq!(
        diff_plan("a7f3b2x1", 0, 1, None),
        Ok(DiffPlan::Nothing("a7f3b2x1: no body revisions to diff (body revision count: 0)".to_string()))
    );
    assert_eq!(diff_plan("t", 3, 4, None), Ok(DiffPlan::Compare { from: 2, to: 3 }));
    assert_eq!(diff_plan("t", 3, 4, Some("1")), Ok(DiffPlan::Compare { from: 0, to: 1 }));
    assert_eq!(diff_plan("t", 3, 4, Some("0..3")), Ok(DiffPlan::Compare { from: 0, to: 3 }));
    assert!(matches!(diff_plan("t", 3, 4, Some("5")), Err(ForumError::Config(_))));
}

#[test]
fn body_file_text_ends_with_newline() {
    assert_eq!(body_file_text("x"), "x\n");
    assert_eq!(body_file_text("x\n"), "x\n");
    assert_eq!(body_file_text(""), "\n");
}

#[test]
fn labelled_diff_renames_paths() {
    let out = "diff --git a/tmp/x1 b/tmp/y2\n--- a/tmp/x1\n+++ b/tmp/y2\n";
    assert_eq!(
        labelled_diff("t", 1, 2, out, "/tmp/x1", "/tmp/y2"),
        "diff --git aa/rev1/body bb/rev2/body\n--- aa/rev1/body\n+++ bb/rev2/body\n"
    );
    assert_eq!(labelled_diff("t", 0, 2, "@@ tmp/y2 @@", "/tmp/x1", "/tmp/y2"), "@@ b/rev2/body @@");
    assert_eq!(labelled_diff("t", 1, 2, "", "/tmp/x1", "/tmp/y2"), "t: revisions 1 and 2 are identical");
}
