use git_forum::internal::git_ops::annotate_git_stderr;

#[test]
fn annotates_unable_to_create_temporary_file() {
    let stderr = "error: unable to create temporary file: Read-only file system\n\
                  fatal: Unable to add (null) to database";
    let out = annotate_git_stderr(stderr);
    assert!(out.contains("forum write failed before updating the thread ref"), "expected forum-level hint, got:\n{out}");
    assert!(out.contains("retrying is safe"), "expected retry guidance, got:\n{out}");
    assert!(out.contains("unable to create temporary file"), "expected raw git error to be preserved, got:\n{out}");
}

#[test]
fn annotates_no_space_left() {
    let stderr = "error: No space left on device";
    let out = annotate_git_stderr(stderr);
    assert!(out.contains("forum write failed"));
    assert!(out.contains("free disk space"));
}

#[test]
fn passes_unrelated_errors_through_unchanged() {
    let stderr = "fatal: not a git repository";
    let out = annotate_git_stderr(stderr);
    assert_eq!(out, stderr);
}

#[test]
fn annotated_lines_are_indented_under_the_header() {
    let out = annotate_git_stderr("error: Permission denied");
    assert!(out.ends_with("  underlying git error:\n    error: Permission denied"), "{out}");
}
