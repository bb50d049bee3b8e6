use git_forum::internal::commands::migrate::project_tags;
use git_forum::internal::commands::migrate::{
    alias_ref, bare_token_for, check_target, legacy_kind_to_canonical_tag, tree_safe_node_id,
};
use git_forum::internal::id_alloc;
use git_forum::internal::thread::ThreadKind;

#[test]
fn legacy_kind_to_canonical_tag_covers_spec_table() {
    assert_eq!(legacy_kind_to_canonical_tag(ThreadKind::Issue), Some("bug"));
    assert_eq!(legacy_kind_to_canonical_tag(ThreadKind::Dec), Some("decision"));
    assert_eq!(legacy_kind_to_canonical_tag(ThreadKind::Rfc), None);
    assert_eq!(legacy_kind_to_canonical_tag(ThreadKind::Task), None);
}

#[test]
fn tree_safe_node_id_strips_actor_namespace_slash() {
    assert_eq!(
        tree_safe_node_id("8ae3c8ffc9f505641a86e628947212b4cc995ceb#human/alice"),
        "8ae3c8ffc9f505641a86e628947212b4cc995ceb#human-alice"
    );
    let plain = "8ae3c8ffc9f505641a86e628947212b4cc995ceb";
    assert_eq!(tree_safe_node_id(plain), plain);
    assert_eq!(tree_safe_node_id("abc#human/foo/bar"), "abc#human-foo-bar");
}

#[test]
fn bare_token_for_pinned_v2_mappings() {
    assert_eq!(bare_token_for("RFC-0001"), "sb7fmsjj");
    assert_eq!(bare_token_for("RFC-0042"), "eid815ln");
    assert_eq!(bare_token_for("ASK-0001"), "rd3gy4j9");
    assert_eq!(bare_token_for("JOB-0001"), "ogvib034");
    assert_eq!(bare_token_for("DEC-0001"), "yek2fmxc");
    assert_eq!(bare_token_for("RFC-0007"), "bki6w227");
}

#[test]
fn bare_token_for_strips_opaque_prefix() {
    assert_eq!(bare_token_for("RFC-a7f3b2x1"), "a7f3b2x1");
    assert_eq!(bare_token_for("ASK-q3kfj49v"), "q3kfj49v");
    assert_eq!(bare_token_for("JOB-x8n2q1d4"), "x8n2q1d4");
}

#[test]
fn bare_token_for_passthrough_already_bare() {
    assert_eq!(bare_token_for("a7f3b2x1"), "a7f3b2x1");
}

#[test]
fn bare_token_for_sequential_yields_legal_bare_token() {
    let token = bare_token_for("RFC-0007");
    assert!(id_alloc::is_bare_token(&token), "must satisfy bare-token grammar: {token}");
}

#[test]
fn alias_ref_prefixes_the_legacy_id() {
    assert_eq!(alias_ref("RFC-0001"), "refs/forum/aliases/RFC-0001");
}

#[test]
fn check_target_accepts_only_the_supported_version() {
    assert!(check_target("3.0").is_ok());
    assert!(check_target("2.0").is_err());
}

use git_forum::internal::commands::migrate::{
    collect_omissions, count_outcome, failed_threads_error, migrate_actor, migrate_commit_message,
    omission_warning, run_summary_line, strict_issue_to_omission, Omission, StrictReplayIssue,
    ThreadOutcome, ThreadReport,
};
use git_forum::internal::event::{EventType, Lifecycle};

fn report(id: &str, outcome: ThreadOutcome) -> ThreadReport {
    ThreadReport {
        thread_id: id.into(),
        ref_name: format!("refs/forum/threads/{id}"),
        outcome,
        omissions: vec![],
        error: None,
        inferred_metadata: None,
        archived_events: None,
    }
}

#[test]
fn strict_issues_become_omissions() {
    let o = strict_issue_to_omission(&StrictReplayIssue::UnknownTargetNode {
        event_id: "e1".into(),
        event_type: EventType::Resolve,
        target_node_id: "n9".into(),
    });
    assert_eq!((o.kind.as_str(), o.item.as_str(), o.reason.as_str()), ("node", "n9", "resolve event e1 targets unknown node"));
    let o = strict_issue_to_omission(&StrictReplayIssue::InvalidTransition {
        event_id: "e2".into(),
        from: "open".into(),
        to: "draft".into(),
        lifecycle: Lifecycle::Execution,
    });
    assert_eq!(o.item, "open->draft");
    assert_eq!(o.reason, "state event e2 edge not legal under lifecycle `execution`");
    let o = strict_issue_to_omission(&StrictReplayIssue::MissingRequiredField {
        event_id: "e3".into(),
        event_type: EventType::Say,
        field: "body",
    });
    assert_eq!((o.kind.as_str(), o.item.as_str()), ("field", "body"));
}

#[test]
fn omissions_are_collected_in_order() {
    let issues = vec![StrictReplayIssue::InvalidStateValue { event_id: "e".into(), value: "bogus".into() }];
    let extra = vec![Omission { kind: "k".into(), item: "i".into(), reason: "r".into() }];
    let all = collect_omissions(&issues, extra, Some("abc".into()));
    assert_eq!(all.len(), 3);
    assert_eq!(all[0].kind, "state");
    assert_eq!(all[1].kind, "k");
    assert_eq!(all[2].kind, "archive");
    assert_eq!(all[2].item, "abc");
    assert_eq!(omission_warning("T-1", &all[1]), "warning: T-1: [k] i — r");
}

#[test]
fn run_lines_and_errors() {
    let threads = vec![
        report("a", ThreadOutcome::Migrated),
        report("b", ThreadOutcome::AlreadyMigrated),
        report("c", ThreadOutcome::Migrated),
    ];
    assert_eq!(count_outcome(&threads, ThreadOutcome::Migrated), 2);
    assert_eq!(run_summary_line(&threads, true), "[DRY-RUN] migrated=2 already=1 errors=0");
    assert_eq!(run_summary_line(&threads, false), "migrated=2 already=1 errors=0");
    assert_eq!(
        migrate_commit_message("a", 4),
        "[git-forum] migrate a to 3.0 (4 legacy event(s) archived)"
    );
    assert_eq!(migrate_actor(None, None), "system/migrate");
    assert_eq!(migrate_actor(None, Some("human/x".into())), "human/x");
    assert_eq!(migrate_actor(Some("ai/y".into()), Some("human/x".into())), "ai/y");
    assert_eq!(
        failed_threads_error(2, "/r/.git/forum/migration-report.json").message(),
        "config error: 2 thread(s) failed to migrate; see error lines above and report at /r/.git/forum/migration-report.json"
    );
}

#[test]
fn bare_token_is_stable_under_remapping() {
    for id in ["RFC-0001", "RFC-a7f3b2x1", "a7f3b2x1", "weird id", ""] {
        let t = bare_token_for(id);
        assert_eq!(bare_token_for(&t), t);
        assert!(id_alloc::is_bare_token(&t));
    }
}

#[test]
fn project_tags_drops_invalid_and_adds_canonical() {
    let tags: Vec<String> = vec!["perf".into(), "Bad".into(), "perf".into(), "x".into(), "api-v2".into()];
    let (kept, omissions) = project_tags(&tags, Lifecycle::Record, ThreadKind::Issue);
    assert_eq!(kept, vec!["perf".to_string(), "api-v2".to_string(), "decision".to_string(), "bug".to_string()]);
    assert_eq!(omissions.len(), 2);
    assert_eq!(omissions[0].kind, "tag");
    assert_eq!(omissions[0].item, "Bad");
    assert!(omissions[0].reason.contains("lowercase"));
    assert_eq!(omissions[1].item, "x");
    assert!(omissions[1].reason.contains("tag length"));
}

#[test]
fn project_tags_does_not_duplicate_existing_tags() {
    let tags: Vec<String> = vec!["decision".into(), "bug".into()];
    let (kept, omissions) = project_tags(&tags, Lifecycle::Record, ThreadKind::Dec);
    assert_eq!(kept, vec!["decision".to_string(), "bug".to_string()]);
    assert!(omissions.is_empty());
    let (plain, _) = project_tags(&Vec::new(), Lifecycle::Proposal, ThreadKind::Rfc);
    assert!(plain.is_empty());
}
