use git_forum::internal::commands::push::PushSummary;

#[test]
fn summary_render_includes_all_counts() {
    let s = PushSummary { published_total: 3, created: 2, updated: 1, withdrawn: 1, failed: 0, warnings: 4 };
    assert_eq!(s.render(), "Published 3 threads (2 new, 1 updated, 1 withdrawn, 0 failed)");
}
