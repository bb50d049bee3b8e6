use git_forum::internal::commands::ls::{render_shortlog_for_width, ShortlogEntry};
use git_forum::internal::commands::ls::{parse_columns, render_ls, render_ls_for_width, Column, LsRenderOptions};
use git_forum::internal::evidence::Timestamp;
use git_forum::internal::thread::ThreadState;

fn t() -> Timestamp {
    Timestamp { secs: 1767225600, nanos: 0 }
}

fn fixed_state() -> ThreadState {
    ThreadState {
        id: "RFC-0001".into(),
        title: "Test RFC".into(),
        body: Some("Thread body".into()),
        status: "draft".into(),
        created_at: t(),
        created_by: "human/alice".into(),
        category: "rfc".into(),
        ..ThreadState::default()
    }
}

#[test]
fn ls_empty() {
    assert_eq!(render_ls(&[], &LsRenderOptions::default()), "no threads found\n");
}

#[test]
fn ls_contains_all_threads() {
    let mut s = fixed_state();
    s.branch = Some("feat/parser".into());
    s.category = "rfc".into();
    let out = render_ls(&[&s], &LsRenderOptions::default());
    assert!(out.contains("LIFECYCLE"));
    assert!(!out.contains("TAGS"));
    assert!(out.contains("BRANCH"));
    assert!(out.contains("RFC-0001"));
    assert!(out.contains("proposal"));
    assert!(out.contains("draft"));
    assert!(out.contains("feat/parser"));
    assert!(out.contains("Test RFC"));
}

#[test]
fn ls_drops_uniformly_empty_branch_column() {
    let s = fixed_state();
    let out = render_ls(&[&s], &LsRenderOptions::default());
    assert!(!out.contains("BRANCH"), "BRANCH column should auto-hide when uniformly empty:\n{out}");
}

#[test]
fn ls_keeps_branch_column_when_filter_active() {
    let s = fixed_state();
    let opts = LsRenderOptions { force_branch_column: true, ..LsRenderOptions::default() };
    let out = render_ls(&[&s], &opts);
    assert!(out.contains("BRANCH"), "BRANCH column must stay when --branch filter is active:\n{out}");
}

#[test]
fn ls_columns_pin_overrides_auto_hide() {
    let s = fixed_state();
    let opts = LsRenderOptions {
        columns: Some(vec![Column::Id, Column::Branch, Column::Title]),
        ..LsRenderOptions::default()
    };
    let out = render_ls(&[&s], &opts);
    assert!(out.contains("ID"));
    assert!(out.contains("BRANCH"));
    assert!(out.contains("TITLE"));
    assert!(!out.contains("LIFECYCLE"));
    assert!(!out.contains("STATUS"));
}

#[test]
fn parse_columns_round_trip() {
    let cols = parse_columns("id,branch,title").unwrap();
    assert_eq!(cols, vec![Column::Id, Column::Branch, Column::Title]);
    let cols = parse_columns(" ID , Branch ").unwrap();
    assert_eq!(cols, vec![Column::Id, Column::Branch]);
}

#[test]
fn parse_columns_rejects_unknown() {
    let err = parse_columns("id,bogus,title").unwrap_err();
    assert!(err.message().contains("unknown ls column 'bogus'"));
}

#[test]
fn parse_columns_rejects_empty_spec() {
    let err = parse_columns("").unwrap_err();
    assert!(err.message().contains("at least one column"));
}

#[test]
fn ls_keeps_branch_when_one_row_has_it() {
    let s1 = fixed_state();
    let mut s2 = fixed_state();
    s2.id = "RFC-0002".into();
    s2.branch = Some("feat/auth".into());
    let out = render_ls(&[&s1, &s2], &LsRenderOptions::default());
    assert!(out.contains("BRANCH"));
    assert!(out.contains("feat/auth"));
}

#[test]
fn ls_table_layout_is_exact_for_a_known_width() {
    let s = fixed_state();
    let out = render_ls_for_width(&[&s], &LsRenderOptions::default(), None);
    let expected = String::new()
        + "ID            LIFECYCLE   STATUS      CREATED           UPDATED           TITLE\n"
        + "----------------------------------------------------------------------------\n"
        + "RFC-0001      proposal    draft       2026-01-01 00:00  1970-01-01 00:00  Test RFC\n";
    assert_eq!(out, expected);
}

#[test]
fn ls_title_is_cut_to_the_terminal_width() {
    let mut s = fixed_state();
    s.title = "A fairly long title that will not fit in the space left".into();
    let opts = LsRenderOptions { columns: Some(vec![Column::Id, Column::Title]), ..LsRenderOptions::default() };
    // fixed = 12 + 0 + 2 spacing + 2 = 16; budget = 40 - 16 = 24 bytes: 21 kept, then "...".
    let out = render_ls_for_width(&[&s], &opts, Some(40));
    assert!(out.contains("RFC-0001      A fairly long title t...\n"), "{out}");
}

fn ended(id: &str, category: &str, tags: &[&str], status: &str, title: &str) -> ThreadState {
    ThreadState {
        id: id.into(),
        category: category.into(),
        tags: tags.iter().map(|t| t.to_string()).collect(),
        status: status.into(),
        title: title.into(),
        ..ThreadState::default()
    }
}

#[test]
fn shortlog_empty() {
    assert_eq!(
        render_shortlog_for_width(&[], None),
        "no threads reached terminal state in the given period\n"
    );
}

#[test]
fn shortlog_groups_by_lifecycle_in_time_order() {
    let a = ended("RFC-A", "rfc", &[], "done", "First proposal");
    let b = ended("TASK-B", "task", &[], "done", "A task");
    let c = ended("RFC-C", "rfc", &[], "rejected", "Second proposal");
    let d = ended("DEC-D", "task", &["decision"], "done", "A decision");
    let entries = vec![
        ShortlogEntry { state: &a, reached: Timestamp { secs: 1767225600 + 120, nanos: 0 } },
        ShortlogEntry { state: &b, reached: Timestamp { secs: 1767225600, nanos: 0 } },
        ShortlogEntry { state: &c, reached: Timestamp { secs: 1767225600 + 60, nanos: 0 } },
        ShortlogEntry { state: &d, reached: Timestamp { secs: 1767225600 + 60, nanos: 0 } },
    ];
    let out = render_shortlog_for_width(&entries, None);
    let expected = "## proposal (2 threads)\n\
ID            STATUS      RESOLVED          TITLE\n\
RFC-C         rejected    2026-01-01 00:01  Second proposal\n\
RFC-A         done        2026-01-01 00:02  First proposal\n\
\n\
## execution (1 thread)\n\
ID            STATUS      RESOLVED          TITLE\n\
TASK-B        done        2026-01-01 00:00  A task\n\
\n\
## record (1 thread)\n\
ID            STATUS      RESOLVED          TITLE\n\
DEC-D         done        2026-01-01 00:01  A decision\n";
    assert_eq!(out, expected);
}

#[test]
fn shortlog_same_time_keeps_input_order_and_cuts_titles() {
    let a = ended("RFC-1", "rfc", &[], "done", "Alpha title that is long enough to be cut");
    let b = ended("RFC-2", "rfc", &[], "done", "Beta");
    let t = Timestamp { secs: 1767225600, nanos: 0 };
    let entries = vec![ShortlogEntry { state: &a, reached: t }, ShortlogEntry { state: &b, reached: t }];
    // 12 + 10 + 16 + 8 fixed columns; a 60-wide terminal leaves 14 bytes.
    let out = render_shortlog_for_width(&entries, Some(60));
    let lines: Vec<&str> = out.lines().collect();
    assert!(lines[2].starts_with("RFC-1 "));
    assert!(lines[2].ends_with("  Alpha title..."));
    assert!(lines[3].starts_with("RFC-2 "));
    // A narrow terminal does not cut.
    let wide = render_shortlog_for_width(&entries, Some(30));
    assert!(wide.contains("Alpha title that is long enough to be cut"));
}
