use git_forum::internal::commands::doctor::{
    dir_check, fresh_clone_check, git_forum_dir_check, index_blob_check, is_fresh_clone,
    no_remotes_check, policy_check, refspec_check, remote_names, render_doctor_report,
    replay_checks, snapshot_check, snapshot_count_check, template_check, template_file_names,
    thread_refs_check, CheckLevel, DoctorCheck, DoctorReport, FileState, PolicyFile,
    ReplayOutcome, SnapshotRead,
};
use git_forum::internal::commands::hook::FixIndexResult;

fn chk(name: &str, level: CheckLevel, detail: Option<&str>) -> DoctorCheck {
    DoctorCheck { name: name.into(), level, detail: detail.map(|d| d.to_string()) }
}

#[test]
fn report_all_passed_collapses_replays() {
    let report = DoctorReport {
        checks: vec![
            chk(".forum/ directory", CheckLevel::Pass, None),
            chk("replay refs/forum/threads/a", CheckLevel::Pass, None),
            chk("replay refs/forum/threads/b", CheckLevel::Pass, None),
        ],
        advisories: vec![],
    };
    assert!(report.all_passed());
    assert_eq!(
        render_doctor_report(&report, false),
        "[ ok ] replay: 2 threads replayed successfully\n\nAll 3 checks passed.\n"
    );
    assert_eq!(
        render_doctor_report(&report, true),
        "[ ok ] .forum/ directory\n[ ok ] replay: 2 threads replayed successfully\n\nAll 3 checks passed.\n"
    );
}

#[test]
fn report_lists_failures_warnings_and_advisories() {
    let report = DoctorReport {
        checks: vec![
            chk("policy.toml exists", CheckLevel::Fail, Some("file not found")),
            chk("forum refspec (origin)", CheckLevel::Warn, Some("could not check: x")),
            chk("auth-without-published a", CheckLevel::Info, Some("push it")),
            chk("replay refs/forum/threads/a", CheckLevel::Fail, None),
            chk("replay refs/forum/threads/b", CheckLevel::Pass, None),
        ],
        advisories: vec!["RFC-1 (done) has 1 implementing child still open (T-2)".into()],
    };
    assert!(!report.all_passed());
    assert_eq!(
        render_doctor_report(&report, false),
        "[FAIL] policy.toml exists -- file not found\n\
         [WARN] forum refspec (origin) -- could not check: x\n\
         [INFO] auth-without-published a -- push it\n\
         [FAIL] replay refs/forum/threads/a -- unknown error\n\
         [ ok ] replay: 1 other threads ok\n\
         [ADV ] RFC-1 (done) has 1 implementing child still open (T-2)\n\
         \n\
         2 failed, 1 warning, 1 passed\n"
    );
}

#[test]
fn check_builders() {
    let c = template_check("rfc.md", FileState::Missing);
    assert_eq!(c.name, "template rfc.md");
    assert_eq!(c.level, CheckLevel::Fail);
    assert_eq!(c.detail.as_deref(), Some("file not found; create .forum/templates/rfc.md"));
    assert_eq!(template_check("a", FileState::Empty).detail.as_deref(), Some("file is empty"));
    assert_eq!(template_check("a", FileState::Present).level, CheckLevel::Pass);
    assert_eq!(template_file_names(), vec!["issue.md", "rfc.md", "dec.md", "task.md"]);
    assert_eq!(policy_check(PolicyFile::Missing).name, "policy.toml exists");
    assert_eq!(policy_check(PolicyFile::Unreadable("bad".into())).detail.as_deref(), Some("bad"));
    let ok = policy_check(PolicyFile::Text("[guards]\nstrict = true\n".into()));
    assert_eq!(ok.name, "policy.toml valid");
    assert_eq!(ok.level, CheckLevel::Pass);
    let broken = policy_check(PolicyFile::Text("this is = = not toml".into()));
    assert_eq!(broken.name, "policy.toml valid");
    assert_eq!(broken.level, CheckLevel::Fail);
    assert!(broken.detail.is_some());
    assert_eq!(dir_check(".forum/ directory", false).detail.as_deref(), Some("directory not found"));
    assert_eq!(fresh_clone_check().level, CheckLevel::Warn);
    assert!(is_fresh_clone(true, false, false, true));
    assert!(!is_fresh_clone(true, false, true, true));
    assert_eq!(git_forum_dir_check(false, true).level, CheckLevel::Warn);
    assert_eq!(git_forum_dir_check(false, false).level, CheckLevel::Fail);
    assert_eq!(remote_names("origin\n  \n upstream \n"), vec!["origin".to_string(), "upstream".to_string()]);
    assert_eq!(no_remotes_check().name, "forum refspec (no remotes)");
    let w = refspec_check("origin", Ok(false));
    assert_eq!(w.name, "forum refspec (origin)");
    assert_eq!(
        w.detail.as_deref(),
        Some("remote 'origin' lacks refs/forum/* fetch refspec; run `git forum init` to fix")
    );
    assert_eq!(thread_refs_check(Some(3)).name, "thread refs: 3 found");
    assert_eq!(thread_refs_check(None).level, CheckLevel::Fail);
    assert!(snapshot_check("a", SnapshotRead::Decoded).is_none());
    assert_eq!(
        snapshot_check("a", SnapshotRead::LegacyChain).unwrap().name,
        "migrate-required refs/forum/threads/a"
    );
    assert!(snapshot_count_check(0).is_none());
    assert_eq!(snapshot_count_check(2).unwrap().name, "snapshot integrity: 2 thread.toml decoded");
}

#[test]
fn index_blob_and_replay_checks() {
    let clean = FixIndexResult { fixed: vec![], warnings: vec![] };
    assert_eq!(index_blob_check(Ok(clean)).level, CheckLevel::Pass);
    let fixed = FixIndexResult { fixed: vec![("a.txt".into(), "abc".into())], warnings: vec![] };
    let c = index_blob_check(Ok(fixed));
    assert_eq!(c.level, CheckLevel::Warn);
    assert_eq!(c.detail.as_deref(), Some("re-hashed a.txt (was abc)"));
    let both = FixIndexResult {
        fixed: vec![("a".into(), "1".into())],
        warnings: vec![("b".into(), "2".into())],
    };
    let c = index_blob_check(Ok(both));
    assert_eq!(c.level, CheckLevel::Fail);
    assert_eq!(c.detail.as_deref(), Some("re-hashed a (was 1); b missing blob 2, no working-tree copy"));
    let rs = replay_checks("t", ReplayOutcome::Replayed { strict_issues: vec!["bad event".into()] }, true);
    assert_eq!(rs.len(), 2);
    assert_eq!(rs[0].name, "replay refs/forum/threads/t");
    assert_eq!(rs[1].name, "strict-replay refs/forum/threads/t");
    assert_eq!(rs[1].detail.as_deref(), Some("bad event"));
    let rs = replay_checks("t", ReplayOutcome::Replayed { strict_issues: vec!["bad event".into()] }, false);
    assert_eq!(rs.len(), 1);
    assert_eq!(replay_checks("t", ReplayOutcome::Orphan, false)[0].level, CheckLevel::Warn);
}

use git_forum::internal::commands::doctor::{cross_thread_advisories, AdvisoryThread};

fn th(id: &str, status: &str, implements: &[&str]) -> AdvisoryThread {
    AdvisoryThread {
        id: id.into(),
        status: status.into(),
        implements: implements.iter().map(|s| s.to_string()).collect(),
    }
}

#[test]
fn advisories_name_open_children_of_done_parents() {
    let ts = vec![
        th("a7f3b2x1", "done", &[]),
        th("zz000001", "done", &[]),
        th("t2", "open", &["RFC-a7f3b2x1"]),
        th("t3", "done", &["a7f3b2x1"]),
        th("t4", "working", &["a7f3b2x1", "zz000001"]),
        th("t5", "open", &["unknown"]),
    ];
    assert_eq!(
        cross_thread_advisories(&ts),
        vec![
            "a7f3b2x1 (done) has 2 implementing children still open (t2, t4)".to_string(),
            "zz000001 (done) has 1 implementing child still open (t4)".to_string(),
        ]
    );
    assert!(cross_thread_advisories(&vec![th("p", "open", &[]), th("c", "open", &["p"])]).is_empty());
}
