use git_forum::internal::index::plan_search;

fn free_text(n: usize) -> String {
    let p = format!("?{n}");
    format!(
        "(lower(title) LIKE lower({p})
                 OR lower(id) LIKE lower({p})
                 OR lower(coalesce(body, '')) LIKE lower({p})
                 OR lower(coalesce(branch, '')) LIKE lower({p})
                 OR lower(kind) LIKE lower({p})
                 OR lower(lifecycle) LIKE lower({p})
                 OR lower(status) LIKE lower({p})
                 OR EXISTS (
                     SELECT 1 FROM thread_tags
                     WHERE thread_tags.thread_id = threads.id
                       AND lower(thread_tags.tag) LIKE lower({p})
                 )
                 OR EXISTS (
                     SELECT 1 FROM nodes
                     WHERE nodes.thread_id = threads.id
                       AND (
                         lower(nodes.id) LIKE lower({p})
                         OR lower(nodes.node_type) LIKE lower({p})
                         OR lower(nodes.status) LIKE lower({p})
                         OR lower(nodes.body) LIKE lower({p})
                       )
                 ))"
    )
}

fn tag(n: usize) -> String {
    format!(
        "EXISTS (SELECT 1 FROM thread_tags
                         WHERE thread_tags.thread_id = threads.id
                           AND lower(thread_tags.tag) = lower(?{}))",
        n
    )
}

fn select(where_sql: &str) -> String {
    format!(
        "SELECT id, kind, lifecycle, lifecycle_explicit,
                status, title, body, branch, created_at, created_by,
                open_objections, open_actions, has_summary, tip_sha, coalesce(updated_at, '')
         FROM threads
         WHERE {where_sql}
         ORDER BY id"
    )
}

#[test]
fn search_routes_tokens_by_prefix() {
    let plan = plan_search("lifecycle:proposal AND tag:cross-cutting  parser ");
    assert_eq!(plan.binds, vec!["proposal".to_string(), "cross-cutting".to_string(), "%parser%".to_string()]);
    let where_sql = ["lower(lifecycle) = lower(?1)".to_string(), tag(2), free_text(3)].join(" AND ");
    assert_eq!(plan.sql, Some(select(&where_sql)));
    assert_eq!(plan.node_pattern.as_deref(), Some("%parser%"));
}

#[test]
fn search_of_facets_only_has_no_node_pattern() {
    let plan = plan_search("tag:bug");
    assert_eq!(plan.binds, vec!["bug".to_string()]);
    assert_eq!(plan.node_pattern, None);
}

#[test]
fn search_without_words_has_no_statement() {
    let plan = plan_search("  and AND ");
    assert!(plan.sql.is_none());
    assert!(plan.binds.is_empty());
    let plan = plan_search("x");
    assert_eq!(plan.sql, Some(select(&free_text(1))));
}
