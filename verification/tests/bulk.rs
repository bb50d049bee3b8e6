use git_forum::internal::commands::bulk::{
    applied_outcome, check_bulk_selection, finish_bulk, plan_bulk_thread, render_bulk_report,
    thread_matches_filters, BulkSelectors, BulkStep,
};
use git_forum::internal::thread::ThreadState;

fn task(id: &str, status: &str, tags: &[&str]) -> ThreadState {
    ThreadState {
        id: id.into(),
        category: "task".into(),
        status: status.into(),
        tags: tags.iter().map(|t| t.to_string()).collect(),
        ..ThreadState::default()
    }
}

#[test]
fn filters_match_kind_branch_and_status() {
    let mut s = task("T-1", "open", &["bug"]);
    assert!(thread_matches_filters(&s, Some("issue"), None, Some("open")));
    assert!(!thread_matches_filters(&s, Some("task"), None, None));
    assert!(!thread_matches_filters(&s, None, Some("main"), None));
    s.branch = Some("main".into());
    assert!(thread_matches_filters(&s, None, Some("main"), None));
}

#[test]
fn selection_requires_ids_or_selectors() {
    let none = BulkSelectors { branch: None, kind: None, status: None };
    assert!(check_bulk_selection(&[], &none).is_err());
    assert!(check_bulk_selection(&["T-1".to_string()], &none).is_ok());
    let by_status = BulkSelectors { branch: None, kind: None, status: Some("open") };
    assert!(check_bulk_selection(&[], &by_status).is_ok());
}

#[test]
fn plan_steps_for_each_case() {
    let sel = BulkSelectors { branch: None, kind: None, status: None };
    match plan_bulk_thread("T-1", Err("gone".into()), &sel, "done", false) {
        BulkStep::Done(o) => {
            assert!(!o.ok);
            assert_eq!(o.from_state, "?");
            assert_eq!(o.detail.as_deref(), Some("gone"));
        }
        _ => panic!("expected a failed outcome"),
    }
    let s = task("T-1", "done", &[]);
    match plan_bulk_thread("T-1", Ok(&s), &sel, "closed", false) {
        BulkStep::Done(o) => {
            assert!(o.ok);
            assert_eq!(o.detail.as_deref(), Some("already in 'done'; no transition recorded"));
        }
        _ => panic!("expected a no-op outcome"),
    }
    let s = task("T-1", "open", &[]);
    assert!(matches!(plan_bulk_thread("T-1", Ok(&s), &sel, "done", false), BulkStep::Apply));
    match plan_bulk_thread("T-1", Ok(&s), &sel, "done", true) {
        BulkStep::Done(o) => assert!(o.ok && o.dry_run && o.detail.is_none()),
        _ => panic!("expected a dry-run outcome"),
    }
    let only_rfc = BulkSelectors { branch: None, kind: Some("rfc"), status: None };
    assert!(matches!(plan_bulk_thread("T-1", Ok(&s), &only_rfc, "done", false), BulkStep::Skip));
}

#[test]
fn report_counts_failures_and_renders() {
    assert!(finish_bulk(vec![]).is_err());
    let a = applied_outcome("T-1", "open", "done", false, Ok(("open".into(), "done".into())));
    let b = applied_outcome("T-2", "open", "done", false, Err("blocked".into()));
    let rep = finish_bulk(vec![a, b]).unwrap();
    assert_eq!(rep.failures, 1);
    assert_eq!(
        render_bulk_report(&rep),
        "OK         T-1          open -> done\nFAIL       T-2          open -> done  blocked\n"
    );
}
