use git_forum::internal::error::ForumError;
use git_forum::internal::commands::hook::{
    check_thread_refs, id_shaped_tokens, index_repair, install_step, listed_blobs, local_toml_text,
    managed_hooks, refs_trailer_ids, render_no_refs_warning, uninstall_step, BlobCheck, HookStep,
    thread_ref_candidates, HookCheckResult,
};
use git_forum::internal::hook::{extract_thread_ids, strip_comments};

#[test]
fn extract_no_ids() {
    assert!(extract_thread_ids("fix typo in README").is_empty());
}

#[test]
fn extract_single_issue() {
    assert_eq!(extract_thread_ids("fix ISSUE-0001 bug"), vec!["ISSUE-0001"]);
}

#[test]
fn extract_single_rfc() {
    assert_eq!(extract_thread_ids("implement RFC-0042 design"), vec!["RFC-0042"]);
}

#[test]
fn extract_multiple_ids() {
    assert_eq!(
        extract_thread_ids("address RFC-0001, closes ISSUE-0042"),
        vec!["RFC-0001", "ISSUE-0042"]
    );
}

#[test]
fn extract_dedup() {
    assert_eq!(extract_thread_ids("ISSUE-0001 and ISSUE-0001 again"), vec!["ISSUE-0001"]);
}

#[test]
fn extract_at_start_and_end() {
    assert_eq!(extract_thread_ids("ISSUE-0001"), vec!["ISSUE-0001"]);
    assert_eq!(extract_thread_ids("fix for RFC-0001"), vec!["RFC-0001"]);
}

#[test]
fn extract_ignores_unknown_prefix() {
    assert!(extract_thread_ids("fix JIRA-1234 ticket").is_empty());
    assert!(extract_thread_ids("see PROJ-0001").is_empty());
}

#[test]
fn extract_ignores_wrong_digit_count() {
    assert!(extract_thread_ids("ISSUE-001 too few").is_empty());
    assert!(extract_thread_ids("ISSUE-00001 too many").is_empty());
}

#[test]
fn extract_respects_word_boundary() {
    assert!(extract_thread_ids("XISSUE-0001 not a match").is_empty());
    assert!(extract_thread_ids("ISSUE-0001x not a match").is_empty());
}

#[test]
fn extract_id_after_punctuation() {
    assert_eq!(extract_thread_ids("(ISSUE-0001)"), vec!["ISSUE-0001"]);
    assert_eq!(extract_thread_ids("[RFC-0001]"), vec!["RFC-0001"]);
}

#[test]
fn extract_id_on_newline() {
    assert_eq!(extract_thread_ids("subject line\n\nISSUE-0001"), vec!["ISSUE-0001"]);
}

#[test]
fn extract_opaque_id() {
    assert_eq!(extract_thread_ids("implement RFC-a7f3b2x1 design"), vec!["RFC-a7f3b2x1"]);
}

#[test]
fn extract_opaque_ask_id() {
    assert_eq!(extract_thread_ids("fix ASK-0a1b2c3d bug"), vec!["ASK-0a1b2c3d"]);
}

#[test]
fn extract_mixed_legacy_and_opaque() {
    assert_eq!(
        extract_thread_ids("RFC-0001 and RFC-a7f3b2x1"),
        vec!["RFC-0001", "RFC-a7f3b2x1"]
    );
}

#[test]
fn extract_opaque_respects_word_boundary() {
    assert!(extract_thread_ids("XRFC-a7f3b2x1").is_empty());
    assert!(extract_thread_ids("RFC-a7f3b2x1z").is_empty());
}

#[test]
fn extract_opaque_rejects_all_digits() {
    assert!(extract_thread_ids("RFC-12345678").is_empty());
}

#[test]
fn extract_opaque_after_punctuation() {
    assert_eq!(extract_thread_ids("(JOB-x8n2q1d4)"), vec!["JOB-x8n2q1d4"]);
}

#[test]
fn extract_skips_ids_glued_to_letters_of_other_scripts() {
    assert!(extract_thread_ids("éRFC-0001").is_empty());
    assert_eq!(extract_thread_ids("—RFC-0001—"), vec!["RFC-0001"]);
}

#[test]
fn strip_comments_default() {
    let msg = "fix bug\n# This is a comment\nISSUE-0001";
    assert_eq!(strip_comments(msg, '#'), "fix bug\nISSUE-0001");
}

#[test]
fn strip_comments_scissors() {
    let msg = "fix bug\nISSUE-0001\n# --- >8 ---\ndiff --git a/foo";
    assert_eq!(strip_comments(msg, '#'), "fix bug\nISSUE-0001");
}

#[test]
fn strip_comments_custom_char() {
    let msg = "fix bug\n; This is a comment\nISSUE-0001";
    assert_eq!(strip_comments(msg, ';'), "fix bug\nISSUE-0001");
}

#[test]
fn strip_comments_preserves_non_comment_hash() {
    let msg = "fix #123 issue\nISSUE-0001";
    assert_eq!(strip_comments(msg, '#'), "fix #123 issue\nISSUE-0001");
}

#[test]
fn hook_strip_comments_default() {
    let msg = "fix bug\n# This is a comment\nISSUE-0001";
    assert_eq!(git_forum::internal::commands::hook::strip_comments(msg, '#'), "fix bug\nISSUE-0001");
}

#[test]
fn hook_strip_comments_scissors() {
    let msg = "fix bug\nISSUE-0001\n# --- >8 ---\ndiff --git a/foo";
    assert_eq!(git_forum::internal::commands::hook::strip_comments(msg, '#'), "fix bug\nISSUE-0001");
}

#[test]
fn hook_strip_comments_custom_char() {
    let msg = "fix bug\n; This is a comment\nISSUE-0001";
    assert_eq!(git_forum::internal::commands::hook::strip_comments(msg, ';'), "fix bug\nISSUE-0001");
}

#[test]
fn hook_strip_comments_preserves_non_comment_hash() {
    let msg = "fix #123 issue\nISSUE-0001";
    assert_eq!(
        git_forum::internal::commands::hook::strip_comments(msg, '#'),
        "fix #123 issue\nISSUE-0001"
    );
}

#[test]
fn trailer_bare_id() {
    assert_eq!(refs_trailer_ids("Refs: a7f3b2x1"), vec!["a7f3b2x1"]);
}

#[test]
fn trailer_at_marker_is_stripped() {
    assert_eq!(refs_trailer_ids("Refs: @a7f3b2x1"), vec!["a7f3b2x1"]);
}

#[test]
fn trailer_list_and_repeated_keys() {
    assert_eq!(
        refs_trailer_ids("Refs: a7f3b2x1, @e216r3on\nRefs: q59k5a38 a7f3b2x1"),
        vec!["a7f3b2x1", "e216r3on", "q59k5a38"]
    );
}

#[test]
fn trailer_key_is_case_insensitive() {
    assert_eq!(refs_trailer_ids("refs: a7f3b2x1"), vec!["a7f3b2x1"]);
    assert_eq!(refs_trailer_ids("REFS : a7f3b2x1"), vec!["a7f3b2x1"]);
}

#[test]
fn trailer_other_keys_are_ignored() {
    assert!(refs_trailer_ids("Signed-off-by: a7f3b2x1 <a@example.com>").is_empty());
    assert!(refs_trailer_ids("Closes: a7f3b2x1").is_empty());
}

#[test]
fn trailer_non_id_tokens_are_ignored() {
    assert!(refs_trailer_ids("Refs: #123").is_empty());
    assert!(refs_trailer_ids("Refs: https://example.com/x").is_empty());
    assert!(refs_trailer_ids("Refs: a7f3 a7f3b2x1z 12345678 A7F3B2X1").is_empty());
    assert_eq!(refs_trailer_ids("Refs: #123, a7f3b2x1"), vec!["a7f3b2x1"]);
}

#[test]
fn trailer_legacy_ids() {
    assert_eq!(refs_trailer_ids("Refs: RFC-0001, ASK-a7f3b2x1"), vec!["RFC-0001", "ASK-a7f3b2x1"]);
}

#[test]
fn shaped_tokens_subject_tag_and_marker() {
    assert_eq!(
        id_shaped_tokens("docs: foo [a7f3b2x1] see @e216r3on"),
        vec!["a7f3b2x1", "e216r3on"]
    );
}

#[test]
fn shaped_tokens_path_and_hyphen_suffix() {
    assert_eq!(
        id_shaped_tokens("branch issue/a7f3b2x1, and e216r3on-fix"),
        vec!["a7f3b2x1", "e216r3on"]
    );
}

#[test]
fn shaped_tokens_legacy_and_rejects() {
    assert_eq!(id_shaped_tokens("fix RFC-0001"), vec!["RFC-0001"]);
    assert!(id_shaped_tokens("12345678 a7f3 a7f3b2x1z").is_empty());
}

#[test]
fn warning_keeps_first_line_and_shows_placeholder() {
    let w = render_no_refs_warning(&[]);
    assert!(w.starts_with("git-forum: warning: no thread ID referenced in commit message\n"));
    assert!(w.contains("    Refs: <thread-id>\n"));
    assert!(w.contains("git forum evidence add <thread-id> --kind commit --ref HEAD"));
}

#[test]
fn warning_fills_in_single_suggestion() {
    let w = render_no_refs_warning(&["a7f3b2x1".to_string()]);
    assert!(w.contains("    Refs: a7f3b2x1\n"));
    assert!(w.contains("git forum evidence add a7f3b2x1 --kind commit --ref HEAD"));
}

#[test]
fn warning_lists_several_suggestions_without_picking_one() {
    let w = render_no_refs_warning(&["a7f3b2x1".to_string(), "e216r3on".to_string()]);
    assert!(w.contains("    Refs: a7f3b2x1, e216r3on\n"));
    assert!(w.contains("git forum evidence add <thread-id> --kind commit --ref HEAD"));
}

#[test]
fn hook_check_result_errors_only_when_missing() {
    let ok = HookCheckResult { found_ids: vec!["a7f3b2x1".into()], missing_ids: vec![] };
    assert!(!ok.has_errors());
    let bad = HookCheckResult { found_ids: vec![], missing_ids: vec!["e216r3on".into()] };
    assert!(bad.has_errors());
}

#[test]
fn thread_ref_candidates_in_lookup_order() {
    assert_eq!(
        thread_ref_candidates("a7f3b2x1"),
        vec![
            "refs/forum/threads/a7f3b2x1".to_string(),
            "refs/forum/published/a7f3b2x1".to_string(),
            "refs/forum/aliases/a7f3b2x1".to_string(),
        ]
    );
}

#[test]
fn check_thread_refs_splits_found_and_missing() {
    let ids = vec!["a7f3b2x1".to_string(), "RFC-0001".to_string(), "q59k5a38".to_string()];
    let r = check_thread_refs(&ids, &vec![true, false, true]);
    assert_eq!(r.found_ids, vec!["a7f3b2x1".to_string(), "q59k5a38".to_string()]);
    assert_eq!(r.missing_ids, vec!["RFC-0001".to_string()]);
    assert!(r.has_errors());
    let ok = check_thread_refs(&ids, &vec![true, true, true]);
    assert!(!ok.has_errors());
}

#[test]
fn strip_comments_leaves_no_comment_line() {
    let out = strip_comments("Subject\n# note\nBody\n# --- >8 ---\ndiff", '#');
    assert_eq!(out, "Subject\nBody");
    assert!(out.lines().all(|l| !l.starts_with('#')));
}

#[test]
fn extract_ids_are_distinct_in_first_order() {
    let ids = extract_thread_ids("RFC-0001 and ASK-0002, again RFC-0001; xRFC-0003 TASK-0004_");
    assert_eq!(ids, vec!["RFC-0001".to_string(), "ASK-0002".to_string()]);
}

#[test]
fn install_step_cases() {
    let m = "# git-forum advisory commit-msg hook";
    assert_eq!(install_step("commit-msg", m, None, false), Ok(HookStep::Act("git-forum: commit-msg hook installed".into())));
    assert_eq!(
        install_step("commit-msg", m, Some("#!/bin/sh\n# git-forum advisory commit-msg hook\n"), false),
        Ok(HookStep::Leave("git-forum: commit-msg hook already installed".into()))
    );
    assert_eq!(
        install_step("commit-msg", m, Some("#!/bin/sh\necho mine\n"), false),
        Err(ForumError::Config("commit-msg hook already exists; use --force to overwrite".into()))
    );
    assert_eq!(
        install_step("commit-msg", m, Some("#!/bin/sh\necho mine\n"), true),
        Ok(HookStep::Act("git-forum: commit-msg hook installed".into()))
    );
}

#[test]
fn uninstall_step_cases() {
    let m = "# git-forum post-checkout hook";
    assert_eq!(uninstall_step("post-checkout", m, None), Ok(HookStep::Leave("git-forum: no post-checkout hook installed".into())));
    assert_eq!(
        uninstall_step("post-checkout", m, Some("x\n# git-forum post-checkout hook\n")),
        Ok(HookStep::Act("git-forum: post-checkout hook removed".into()))
    );
    assert_eq!(
        uninstall_step("post-checkout", m, Some("echo other")),
        Err(ForumError::Config("post-checkout hook was not installed by git-forum; refusing to remove".into()))
    );
}

#[test]
fn managed_hooks_scripts_carry_markers() {
    let hooks = managed_hooks();
    assert_eq!(hooks.len(), 2);
    assert_eq!(hooks[0].name, "commit-msg");
    assert!(hooks[0].script.contains(hooks[0].marker));
    assert!(hooks[0].script.contains("git-forum hook check-commit-msg \"$1\""));
    assert_eq!(hooks[1].name, "post-checkout");
    assert!(hooks[1].script.contains(hooks[1].marker));
}

#[test]
fn listed_blobs_parse_both_listings() {
    let stage = "100644 aaaa 0\tsrc/a.rs\n\n100644 bbbb 0\tdir/b c.md\nbroken line";
    assert_eq!(
        listed_blobs(stage, false),
        vec![("src/a.rs".to_string(), "aaaa".to_string()), ("dir/b c.md".to_string(), "bbbb".to_string())]
    );
    let tree = "100644 blob cccc\tREADME\n160000 commit dddd\tsub\n";
    assert_eq!(listed_blobs(tree, true), vec![("README".to_string(), "cccc".to_string())]);
}

#[test]
fn index_repair_rehashes_and_warns() {
    let c = |p: &str, s: &str, missing: bool, on_disk: bool| BlobCheck {
        path: p.to_string(),
        sha: s.to_string(),
        missing,
        on_disk,
    };
    let index = vec![c("a", "1", true, true), c("b", "2", false, true), c("g", "3", true, false)];
    let head = vec![c("a", "9", true, true), c("h", "4", true, true), c("h", "5", true, true)];
    let r = index_repair(&index, &head);
    assert_eq!(r.fixed, vec![("a".to_string(), "1".to_string()), ("h".to_string(), "4".to_string())]);
    assert_eq!(r.warnings, vec![("g".to_string(), "3".to_string())]);
}

#[test]
fn local_toml_names_the_actor() {
    let t = local_toml_text("human/alice");
    assert!(t.starts_with("# git-forum local config (per-clone, not committed)\n\n"));
    assert!(t.contains("\ndefault_actor = \"human/alice\"\n"));
    assert!(t.ends_with("# email = \"pseudonym@example.com\"\n"));
}
