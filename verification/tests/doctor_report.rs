use git_forum::internal::commands::doctor::{
    advisory_thread, doctor_report, fetch_specs_have_forum, implements_targets, index_db_checks,
    snapshot_read, tree_has_forum_content, legacy_doctor_report, AdvisoryThread, CheckLevel, DoctorFacts,
    FileState, IndexDb, PolicyFile, ReplayOutcome, SnapshotRead, ThreadFacts,
};
use git_forum::internal::commands::hook::FixIndexResult;
use git_forum::internal::commands::migrate::{
    finish_migration, migrate_outcome, LegacyProjection, MigrateFacts, Omission, StrictReplayIssue, ThreadOutcome,
};

fn thread(id: &str, status: &str, implements: &[&str], strict_issues: Vec<String>) -> ThreadFacts {
    ThreadFacts {
        id: id.to_string(),
        orphan: false,
        snapshot: SnapshotRead::Decoded,
        replay: ReplayOutcome::Replayed { strict_issues },
        advisory: AdvisoryThread {
            id: id.to_string(),
            status: status.to_string(),
            implements: implements.iter().map(|s| s.to_string()).collect(),
        },
    }
}

fn facts(threads: Vec<ThreadFacts>) -> DoctorFacts {
    DoctorFacts {
        policy_present: true,
        logs_dir_present: true,
        has_thread_refs: true,
        dot_forum_is_dir: true,
        policy: PolicyFile::Text("version = 1\n".to_string()),
        templates_is_dir: true,
        templates: vec![FileState::Present, FileState::Present, FileState::Empty, FileState::Present],
        git_forum_is_dir: true,
        remote_output: Some("origin\n".to_string()),
        refspecs: vec![Ok(true)],
        threads: Some(threads),
        index_blobs: Ok(FixIndexResult { fixed: Vec::new(), warnings: Vec::new() }),
    }
}

fn names(checks: &[git_forum::internal::commands::doctor::DoctorCheck]) -> Vec<String> {
    checks.iter().map(|c| c.name.clone()).collect()
}

#[test]
fn doctor_report_lists_checks_in_order() {
    let report = doctor_report(facts(vec![thread("aaaa1111", "open", &[], Vec::new())]), false);
    assert_eq!(
        names(&report.checks),
        vec![
            ".forum/ directory",
            "policy.toml valid",
            ".forum/templates/ directory",
            "template issue.md",
            "template rfc.md",
            "template dec.md",
            "template task.md",
            ".git/forum/ directory",
            "forum refspec (origin)",
            "thread refs: 1 found",
            "snapshot integrity: 1 thread.toml decoded",
            "index blobs",
            "replay refs/forum/threads/aaaa1111",
        ]
    );
    assert_eq!(report.checks[5].level, CheckLevel::Fail);
    assert_eq!(report.checks[5].detail.as_deref(), Some("file is empty"));
    assert!(!report.all_passed());
}

#[test]
fn doctor_report_strict_mode_fails_on_replay_issues() {
    let issues = vec!["event e1 targets unknown node n9".to_string()];
    let lenient = doctor_report(facts(vec![thread("aaaa1111", "open", &[], issues.clone())]), false);
    assert!(!lenient.checks.iter().any(|c| c.name.starts_with("strict-replay")));
    let strict = doctor_report(facts(vec![thread("aaaa1111", "open", &[], issues)]), true);
    let last = strict.checks.last().unwrap();
    assert_eq!(last.name, "strict-replay refs/forum/threads/aaaa1111");
    assert_eq!(last.level, CheckLevel::Fail);
    assert_eq!(last.detail.as_deref(), Some("event e1 targets unknown node n9"));
}

#[test]
fn doctor_report_advises_on_done_parent_with_open_child() {
    let report = doctor_report(
        facts(vec![
            thread("parent01", "done", &[], Vec::new()),
            thread("child001", "open", &["parent01"], Vec::new()),
        ]),
        false,
    );
    assert_eq!(report.advisories.len(), 1);
    assert!(report.advisories[0].contains("parent01"));
}

#[test]
fn doctor_report_fresh_clone_downgrades_missing_git_forum() {
    let mut f = facts(Vec::new());
    f.logs_dir_present = false;
    f.has_thread_refs = false;
    f.git_forum_is_dir = false;
    let report = doctor_report(f, false);
    assert_eq!(report.checks[0].name, "fresh clone detected");
    let gf = report.checks.iter().find(|c| c.name == ".git/forum/ directory").unwrap();
    assert_eq!(gf.level, CheckLevel::Warn);
}

#[test]
fn index_db_checks_compare_counts() {
    let fresh = index_db_checks(IndexDb::Opened { integrity: Ok("ok".to_string()), listed: Ok(3) }, 3);
    assert_eq!(fresh.len(), 2);
    assert_eq!(fresh[0].level, CheckLevel::Pass);
    assert_eq!(fresh[1].name, "index freshness: 3 threads indexed");
    let stale = index_db_checks(IndexDb::Opened { integrity: Ok("bad page".to_string()), listed: Ok(2) }, 5);
    assert_eq!(stale[0].level, CheckLevel::Fail);
    assert_eq!(stale[0].detail.as_deref(), Some("bad page"));
    assert_eq!(stale[1].level, CheckLevel::Warn);
    assert_eq!(
        stale[1].detail.as_deref(),
        Some("index has 2 threads but 5 refs exist; run `git forum reindex`")
    );
    let missing = index_db_checks(IndexDb::Missing, 0);
    assert_eq!(missing[0].name, "index database");
    assert_eq!(missing[0].level, CheckLevel::Warn);
}

#[test]
fn legacy_doctor_report_has_no_fresh_clone_check() {
    let mut f = facts(vec![thread("aaaa1111", "open", &[], vec!["ignored".to_string()])]);
    f.logs_dir_present = false;
    f.has_thread_refs = false;
    f.git_forum_is_dir = false;
    let report = legacy_doctor_report(f, IndexDb::Missing);
    assert_eq!(report.checks[0].name, ".forum/ directory");
    let gf = report.checks.iter().find(|c| c.name == ".git/forum/ directory").unwrap();
    assert_eq!(gf.level, CheckLevel::Fail);
    let n = names(&report.checks);
    let tail: Vec<&str> = n[n.len() - 4..].iter().map(|s| s.as_str()).collect();
    assert_eq!(
        tail,
        vec!["thread refs: 1 found", "index database", "index blobs", "replay refs/forum/threads/aaaa1111"]
    );
}

fn migrate_facts(read: SnapshotRead) -> MigrateFacts {
    MigrateFacts {
        read,
        tip: Ok(Some("abc".to_string())),
        tail: Ok((4, Some("snap1".to_string()))),
        projection: Ok(LegacyProjection {
            issues: vec![StrictReplayIssue::InvalidStateValue { event_id: "e7".to_string(), value: "zzz".to_string() }],
            omissions: vec![Omission { kind: "tag".to_string(), item: "Bad".to_string(), reason: "invalid".to_string() }],
            lifecycle_inferred: true,
        }),
        archive: Ok(()),
        write: Ok(()),
    }
}

#[test]
fn migrate_outcome_already_migrated() {
    let r = migrate_outcome("a7f3b2x1", migrate_facts(SnapshotRead::Decoded), false);
    assert_eq!(r.outcome, ThreadOutcome::AlreadyMigrated);
    assert_eq!(r.ref_name, "refs/forum/threads/a7f3b2x1");
    assert!(r.omissions.is_empty());
    assert_eq!(r.archived_events, None);
}

#[test]
fn migrate_outcome_migrates_with_omissions() {
    let r = migrate_outcome("ASK-0001", migrate_facts(SnapshotRead::LegacyChain), false);
    assert_eq!(r.outcome, ThreadOutcome::Migrated);
    assert_eq!(r.archived_events, Some(4));
    assert_eq!(r.error, None);
    assert_eq!(r.omissions.len(), 3);
    assert_eq!(r.omissions[1].item, "Bad");
    assert_eq!(r.omissions[2].kind, "archive");
    assert_eq!(r.omissions[2].item, "snap1");
    assert_eq!(
        r.inferred_metadata.as_deref(),
        Some("lifecycle inferred from legacy kind (no facet_set in chain — normal for 1.x)")
    );
}

#[test]
fn migrate_outcome_reports_the_failed_stage() {
    let mut f = migrate_facts(SnapshotRead::LegacyChain);
    f.tip = Ok(None);
    let r = migrate_outcome("ASK-0001", f, false);
    assert_eq!(r.outcome, ThreadOutcome::Error);
    assert_eq!(
        r.error.as_deref(),
        Some("ref refs/forum/threads/ASK-0001 disappeared during migration walk")
    );

    let mut f = migrate_facts(SnapshotRead::LegacyChain);
    f.write = Err("locked".to_string());
    let r = migrate_outcome("ASK-0001", f, false);
    assert_eq!(r.outcome, ThreadOutcome::Error);
    assert_eq!(r.error.as_deref(), Some("write_snapshot_with_archive_pinned: locked"));
    assert_eq!(r.omissions.len(), 3);
    assert_eq!(r.archived_events, None);

    let mut f = migrate_facts(SnapshotRead::LegacyChain);
    f.write = Err("locked".to_string());
    let r = migrate_outcome("ASK-0001", f, true);
    assert_eq!(r.outcome, ThreadOutcome::Migrated);

    let r = migrate_outcome("ASK-0001", migrate_facts(SnapshotRead::Failed("bad toml".to_string())), false);
    assert_eq!(r.outcome, ThreadOutcome::Error);
    assert_eq!(r.error.as_deref(), Some("bad toml"));
}

#[test]
fn finish_migration_counts_failures() {
    let ok = migrate_outcome("ASK-0001", migrate_facts(SnapshotRead::LegacyChain), false);
    let bad = migrate_outcome("ASK-0002", migrate_facts(SnapshotRead::Failed("x".to_string())), false);
    assert!(finish_migration(&vec![ok.clone()], ".git/forum/migration-report.json").is_ok());
    match finish_migration(&vec![ok, bad.clone(), bad], ".git/forum/r.json") {
        Err(e) => assert_eq!(
            e.message(),
            "config error: 2 thread(s) failed to migrate; see error lines above and report at .git/forum/r.json"
        ),
        Ok(()) => panic!("expected an error"),
    }
}

#[test]
fn snapshot_read_decodes_toml() {
    assert!(matches!(snapshot_read(&None), SnapshotRead::LegacyChain));
    assert!(matches!(snapshot_read(&Some("status = \"open\"\n".to_string())), SnapshotRead::Decoded));
    assert!(matches!(snapshot_read(&Some("status = \n".to_string())), SnapshotRead::Failed(_)));
}

#[test]
fn advisory_thread_reads_status_and_implements() {
    let thread = Some("id = \"child001\"\nstatus = \"working\"\n".to_string());
    let links = Some(
        "[[links]]\ntarget = \"parent01\"\nrel = \"implements\"\n\n[[links]]\ntarget = \"other001\"\nrel = \"relates-to\"\n"
            .to_string(),
    );
    let a = advisory_thread("child001", &thread, &links);
    assert_eq!(a.id, "child001");
    assert_eq!(a.status, "working");
    assert_eq!(a.implements, vec!["parent01".to_string()]);
    let none = advisory_thread("x", &None, &None);
    assert_eq!(none.status, "");
    assert!(none.implements.is_empty());
}

#[test]
fn implements_targets_skips_other_relations() {
    let pairs = vec![
        (Some("implements".to_string()), Some("a".to_string())),
        (Some("implements".to_string()), None),
        (None, Some("b".to_string())),
        (Some("supersedes".to_string()), Some("c".to_string())),
        (Some("implements".to_string()), Some("d".to_string())),
    ];
    assert_eq!(implements_targets(&pairs), vec!["a".to_string(), "d".to_string()]);
}

#[test]
fn fetch_specs_and_tree_listing() {
    assert!(fetch_specs_have_forum("+refs/heads/*:refs/remotes/origin/*\n  +refs/forum/*:refs/forum/*  "));
    assert!(!fetch_specs_have_forum("+refs/forum/threads/*:refs/forum/threads/*"));
    assert!(!fetch_specs_have_forum("+refs/heads/*:refs/remotes/origin/*"));
    assert!(tree_has_forum_content("body.md\nthread.toml\n"));
    assert!(tree_has_forum_content("event.json"));
    assert!(!tree_has_forum_content("nodes/thread.toml.bak\nREADME"));
}
