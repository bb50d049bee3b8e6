use git_forum::internal::editor::{
    editor_exit_error, editor_template, finish_edit, resolve_editor, strip_comments,
};
use git_forum::internal::error::ForumError;

#[test]
fn strip_comments_removes_hash_lines() {
    let input = "# comment\nhello\n# another\nworld";
    assert_eq!(strip_comments(input), "hello\nworld");
}

#[test]
fn strip_comments_preserves_non_comment_lines() {
    let input = "line one\nline two\nline three";
    assert_eq!(strip_comments(input), "line one\nline two\nline three");
}

#[test]
fn strip_comments_handles_mixed_content() {
    let input = "# header\nreal content\n# footer\nmore content\n";
    assert_eq!(strip_comments(input), "real content\nmore content");
}

#[test]
fn strip_comments_returns_empty_for_all_comments() {
    let input = "# only\n# comments\n# here\n";
    assert_eq!(strip_comments(input), "");
}

#[test]
fn strip_comments_trims_trailing_whitespace() {
    let input = "hello\n\n# comment\n\n";
    assert_eq!(strip_comments(input), "hello");
}

#[test]
fn strip_comments_preserves_inline_hash() {
    let input = "heading with # inside\n# pure comment";
    assert_eq!(strip_comments(input), "heading with # inside");
}

#[test]
fn resolve_editor_defaults_to_vi() {
    let editor = resolve_editor(None, None);
    assert!(!editor.is_empty());
    assert_eq!(editor, "vi");
}

#[test]
fn resolve_editor_prefers_visual_then_editor() {
    assert_eq!(resolve_editor(Some("code -w".into()), Some("nano".into())), "code -w");
    assert_eq!(resolve_editor(None, Some("nano".into())), "nano");
}

#[test]
fn editor_template_carries_the_hint() {
    assert_eq!(
        editor_template("Compose body"),
        "\n# Lines starting with '#' will be stripped.\n# Compose body\n# Leave empty to abort.\n"
    );
}

#[test]
fn finish_edit_rejects_an_empty_body() {
    assert_eq!(
        finish_edit("\n# Lines starting with '#' will be stripped.\n"),
        Err(ForumError::Config("aborted: empty body from editor".into()))
    );
    assert_eq!(finish_edit("body\n# c\n"), Ok("body".to_string()));
}

#[test]
fn editor_exit_error_names_code_or_signal() {
    assert_eq!(
        editor_exit_error("vi", Some(1)),
        ForumError::Config("editor 'vi' exited with 1".into())
    );
    assert_eq!(
        editor_exit_error("vi", Some(-2)),
        ForumError::Config("editor 'vi' exited with -2".into())
    );
    assert_eq!(
        editor_exit_error("vi", None),
        ForumError::Config("editor 'vi' exited with signal".into())
    );
}
