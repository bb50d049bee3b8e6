use git_forum::internal::commands::show::{
    render_full_sections, render_node_show, render_show, size_summary, Section, ShowMode, ShowOptions,
    SnapshotLogEntry,
};
use git_forum::internal::event::NodeType;
use git_forum::internal::evidence::{Evidence, EvidenceKind, Timestamp};
use git_forum::internal::node::Node;
use git_forum::internal::policy::{
    check_guards, CategoryPolicy, EvidenceRules, GuardRule, NamedCategoryPolicy, Policy, ReviseRules, StatusNodeTypes,
    TransitionGuard,
};
use git_forum::internal::thread::{NodeLookup, ThreadLink, ThreadState};

fn t0() -> Timestamp {
    Timestamp { secs: 1767225600, nanos: 0 }
}

fn fixed_state() -> ThreadState {
    ThreadState {
        id: "RFC-0001".into(),
        category: "rfc".into(),
        title: "Test RFC".into(),
        body: Some("Thread body".into()),
        status: "draft".into(),
        created_at: t0(),
        created_by: "human/alice".into(),
        ..ThreadState::default()
    }
}

fn node(id: &str, node_type: NodeType, actor: &str, body: &str) -> Node {
    Node {
        node_id: id.into(),
        node_type,
        body: body.into(),
        actor: actor.into(),
        created_at: t0(),
        resolved: false,
        retracted: false,
        incorporated: false,
        reply_to: None,
    }
}

fn policy_with(category: &str, cp: CategoryPolicy) -> Policy {
    Policy { categories: vec![NamedCategoryPolicy { name: category.into(), policy: cp }] }
}

fn guard(transition: &str, rules: Vec<GuardRule>) -> TransitionGuard {
    TransitionGuard { transition: transition.into(), rules }
}

#[test]
fn show_with_policy_includes_next_and_diagram() {
    let state = fixed_state();
    let out = render_show(&state, &ShowOptions { policy: Some(Policy::default()), ..ShowOptions::default() });
    assert!(out.contains("**next:**     open, withdrawn"));
    assert!(out.contains("transitions:"));
    assert!(out.contains("[draft]"));
}

#[test]
fn what_next_mode_includes_operation_checks() {
    let state = fixed_state();
    let rfc = CategoryPolicy {
        allowed_node_types: vec![StatusNodeTypes {
            status: "draft".into(),
            types: vec![NodeType::Comment, NodeType::Objection],
        }],
        revise: Some(ReviseRules { allow_body_revise: Some(vec!["draft".into()]), allow_node_revise: None }),
        evidence: Some(EvidenceRules { allow_evidence: Some(vec!["draft".into(), "open".into()]) }),
        ..CategoryPolicy::default()
    };
    let policy = policy_with("rfc", rfc);
    let out = render_show(
        &state,
        &ShowOptions { mode: ShowMode::WhatNext, policy: Some(policy), ..ShowOptions::default() },
    );
    assert!(out.contains("operation checks (state: draft):"));
    assert!(out.contains("node types: comment, objection"));
    assert!(out.contains("body revise: allowed"));
    assert!(out.contains("evidence:    allowed"));
}

#[test]
fn status_mode_lists_open_items() {
    let mut state = fixed_state();
    state.nodes.push(node("node-0001", NodeType::Objection, "ai/critic", "Bench results missing"));
    let out = render_show(&state, &ShowOptions { mode: ShowMode::Status, ..ShowOptions::default() });
    assert!(out.contains("RFC-0001"));
    assert!(out.contains("objections (1)"));
    assert!(out.contains("Bench results missing"));
}

#[test]
fn status_mode_exact_text() {
    let mut state = fixed_state();
    let mut done = node("n2", NodeType::Action, "ai/x", "finished");
    done.resolved = true;
    state.nodes = vec![
        node("n1", NodeType::Objection, "ai/x", "too slow"),
        done,
        node("n3", NodeType::Question, "ai/x", "why?"),
    ];
    let out = render_show(&state, &ShowOptions { mode: ShowMode::Status, ..ShowOptions::default() });
    assert_eq!(
        out,
        "RFC-0001     Test RFC (draft)\n  objections (1)\n    - n1 too slow\n  questions (1)\n    - n3 why?\n"
    );
    let quiet = render_show(&fixed_state(), &ShowOptions { mode: ShowMode::Status, ..ShowOptions::default() });
    assert_eq!(quiet, "RFC-0001     Test RFC (draft)\n  no open items\n");
}

#[test]
fn check_guards_reports_failing_rules_in_order() {
    let mut state = fixed_state();
    state.status = "review".into();
    state.nodes.push(node("o1", NodeType::Objection, "ai/x", "no"));
    let rfc = CategoryPolicy {
        guards: vec![guard("review->done", vec![GuardRule::OneApproval, GuardRule::NoOpenObjections])],
        ..CategoryPolicy::default()
    };
    let policy = policy_with("rfc", rfc);
    let v = check_guards(&policy, &state, "review", "done");
    let rules: Vec<&str> = v.iter().map(|x| x.rule.as_str()).collect();
    assert_eq!(rules, vec!["one_approval", "no_open_objections"]);
    assert_eq!(v[0].reason, "no approval node yet");
    assert_eq!(v[1].reason, "1 open objection(s) remain");
    // Another transition has no rules; another category has no policy.
    assert!(check_guards(&policy, &state, "open", "done").is_empty());
    let mut task = state.clone();
    task.category = "task".into();
    assert!(check_guards(&policy, &task, "review", "done").is_empty());
    // Satisfy both rules.
    state.nodes[0].resolved = true;
    state.nodes.push(node("a1", NodeType::Approval, "human/bob", "ok"));
    assert!(check_guards(&policy, &state, "review", "done").is_empty());
}

#[test]
fn commit_evidence_and_open_action_guards() {
    let mut state = fixed_state();
    state.category = "task".into();
    state.status = "review".into();
    let task = CategoryPolicy {
        guards: vec![guard("review->done", vec![GuardRule::NoOpenActions, GuardRule::HasCommitEvidence])],
        ..CategoryPolicy::default()
    };
    let policy = policy_with("task", task);
    assert_eq!(check_guards(&policy, &state, "review", "done").len(), 1);
    state.evidence_items.push(Evidence {
        evidence_id: "ev1".into(),
        kind: EvidenceKind::Commit,
        ref_target: "abc".into(),
        locator: None,
    });
    assert!(check_guards(&policy, &state, "review", "done").is_empty());
    state.nodes.push(node("act1", NodeType::Action, "ai/x", "do"));
    let v = check_guards(&policy, &state, "review", "done");
    assert_eq!(v.len(), 1);
    assert_eq!(v[0].rule, "no_open_actions");
}

#[test]
fn action_hint_lists_blockers_and_open_items() {
    let mut state = fixed_state();
    state.id = "TASK-1".into();
    state.category = "task".into();
    state.status = "review".into();
    state.nodes.push(node("a1", NodeType::Action, "ai/x", "ship it"));
    let task = CategoryPolicy {
        guards: vec![guard("review->done", vec![GuardRule::NoOpenActions])],
        ..CategoryPolicy::default()
    };
    let out = render_show(
        &state,
        &ShowOptions { mode: ShowMode::ActionHint, policy: Some(policy_with("task", task)), ..ShowOptions::default() },
    );
    let lines: Vec<&str> = out.split('\n').collect();
    assert!(lines[0].starts_with("  next: "));
    assert!(lines[0].contains("done (blocked: no_open_actions: 1 open action(s) remain)"));
    assert_eq!(lines[1], "  open: 1 open action(s)");
    assert_eq!(lines[2], "    action a1 — resolve with: resolve TASK-1 a1");
    assert_eq!(lines.len(), 3);
}

#[test]
fn action_hint_without_transitions() {
    let mut state = fixed_state();
    state.status = "withdrawn".into();
    let out = render_show(
        &state,
        &ShowOptions { mode: ShowMode::ActionHint, policy: Some(Policy::default()), ..ShowOptions::default() },
    );
    assert_eq!(out, "  next: (no transitions available)");
}

#[test]
fn what_next_shows_guards_and_lookahead() {
    let state = fixed_state();
    let rfc = CategoryPolicy {
        guards: vec![guard("draft->open", vec![GuardRule::NoOpenObjections]), guard("open->done", vec![GuardRule::OneApproval])],
        ..CategoryPolicy::default()
    };
    let out = render_show(
        &state,
        &ShowOptions { mode: ShowMode::WhatNext, policy: Some(policy_with("rfc", rfc)), ..ShowOptions::default() },
    );
    assert!(out.starts_with("RFC-0001 (draft)\n\nvalid transitions: open, withdrawn\n\n"));
    assert!(out.contains("guard check (draft -> open): PASS\n"));
    assert!(out.contains("guard check (draft -> withdrawn): PASS\n"));
    assert!(out.contains("lookahead (draft → open → done):\n  [one_approval] no approval node yet\n\n"));
    assert!(out.contains("open objections: 0\nopen actions:    0\nnodes:           0\n"));
    assert!(out.contains("has summary:     no\n"));
    assert!(!out.contains("operation checks"));
}

#[test]
fn full_view_default_layout() {
    let mut state = fixed_state();
    state.branch = Some("feat/x".into());
    state.links.push(ThreadLink { target_thread_id: "TASK-9".into(), rel: "implements".into() });
    let out = render_show(&state, &ShowOptions::default());
    assert!(out.starts_with(
        "## RFC-0001 Test RFC\n\n**lifecycle:** proposal\n**status:**    draft\n**created:**   2026-01-01T00:00:00Z\n**by:**        human/alice\n**branch:**    feat/x\n\n---\n\nThread body\n\n"
    ));
    assert!(out.contains("links: 1\n  - TASK-9  implements\n"));
    assert!(out.contains("### timeline\n\n_(timeline unavailable; no snapshot ref loaded)_\n"));
    assert!(!out.contains("tip: run"));
}

#[test]
fn full_view_sections_and_conversations() {
    let mut state = fixed_state();
    let mut r1 = node("n2", NodeType::Comment, "ai/b", "reply one");
    r1.reply_to = Some("n1".into());
    let mut r2 = node("n3", NodeType::Comment, "ai/c", "reply two");
    r2.reply_to = Some("n2".into());
    let mut r3 = node("n5", NodeType::Comment, "ai/d", "second reply to root");
    r3.reply_to = Some("n1".into());
    let mut inc = node("n6", NodeType::Comment, "ai/e", "folded\nin");
    inc.incorporated = true;
    state.nodes = vec![
        node("n1", NodeType::Objection, "ai/a", "root objection"),
        r1,
        r2,
        node("n4", NodeType::Summary, "ai/z", "a summary"),
        r3,
        inc,
    ];
    let secs = render_full_sections(&state, &ShowOptions::default());
    let mut chains: Vec<Vec<String>> = Vec::new();
    let mut kinds: Vec<&str> = Vec::new();
    for s in &secs {
        match s {
            Section::Text(_) => kinds.push("text"),
            Section::OpenObjections(sec) => {
                kinds.push("objections");
                assert_eq!(sec.items.len(), 1);
                assert_eq!(sec.items[0].id_short, "n1");
            },
            Section::OpenActions(sec) => {
                kinds.push("actions");
                assert!(sec.items.is_empty());
            },
            Section::Conversations(sec) => {
                kinds.push("conversations");
                for c in &sec.chains {
                    chains.push(c.nodes.iter().map(|n| n.id_short.clone()).collect());
                }
            },
        }
    }
    // Breadth-first: the root's replies come before the replies to them.
    assert_eq!(
        chains,
        vec![
            vec!["n1".to_string(), "n2".to_string(), "n5".to_string(), "n3".to_string()],
            vec!["n4".to_string()],
            vec!["n6".to_string()],
        ]
    );
    assert_eq!(
        kinds,
        vec!["text", "text", "objections", "actions", "text", "conversations", "text", "text"]
    );
    let out = render_show(&state, &ShowOptions::default());
    assert!(out.contains("incorporated nodes: 1\n  - n6 comment folded\n"));
    assert!(out.contains("**latest summary:**\n  a summary\n"));
    assert!(out.contains("## Open objections (1)"));
    assert!(out.contains("tip: run `git forum show RFC-0001 --what-next` for action guidance"));
}

#[test]
fn compact_view_trims_body_and_counts_timeline() {
    let mut state = fixed_state();
    state.body = Some("# Goal\nl1\n\nl2\nl3\nl4\nl5\nl6".into());
    state.body_revision_count = 2;
    let entries = vec![
        SnapshotLogEntry { row: "| a |".into(), paths: vec![] },
        SnapshotLogEntry { row: "| b |".into(), paths: vec![] },
    ];
    let out = render_show(
        &state,
        &ShowOptions { compact: true, timeline_entries: Some(entries), ..ShowOptions::default() },
    );
    assert!(out.contains("---\n\nl1\nl2\nl3\nl4\nl5\n... (25 B, 2 revision(s) — use 'show RFC-0001' for full body)\n"));
    assert!(out.contains("**timeline:** 2 commits (use 'log RFC-0001' for full view)"));
    assert!(!out.contains("**body revisions:**"));
}

#[test]
fn size_summary_matches_float_formatting() {
    assert_eq!(size_summary(0), "0 B");
    assert_eq!(size_summary(1023), "1023 B");
    assert_eq!(size_summary(1024), "1.0 KB");
    assert_eq!(size_summary(1536), "1.5 KB");
    let mut size: usize = 1024;
    while size < 300_000 {
        assert_eq!(size_summary(size), format!("{:.1} KB", size as f64 / 1024.0), "size {size}");
        size += 7;
    }
    for size in [1280usize, 1792, 2304, 2816, 1024 * 1024 + 512, 10_000_000] {
        assert_eq!(size_summary(size), format!("{:.1} KB", size as f64 / 1024.0), "size {size}");
    }
}

#[test]
fn node_show_layout_and_history() {
    let mut n = node("node-abc", NodeType::Question, "ai/q", "line one\nline two");
    n.reply_to = Some("node-root".into());
    n.resolved = true;
    let lookup = NodeLookup {
        thread_id: "RFC-0001".into(),
        thread_title: "Test RFC".into(),
        thread_category: "rfc".into(),
        thread_tags: vec!["perf".into()],
        node: n,
        links: vec![ThreadLink { target_thread_id: "TASK-2".into(), rel: "implements".into() }],
    };
    let entries = vec![
        SnapshotLogEntry { row: "| c1 |".into(), paths: vec!["thread.toml".into()] },
        SnapshotLogEntry { row: "| c2 |".into(), paths: vec!["nodes/node-abc.md".into()] },
    ];
    let out = render_node_show(&lookup, &ShowOptions { timeline_entries: Some(entries), ..ShowOptions::default() });
    assert_eq!(
        out,
        "## node-abc question\n\n**thread:**    RFC-0001 Test RFC\n**lifecycle:** proposal\n**tags:**      perf\n**status:**    resolved\n**created:**   2026-01-01T00:00:00Z\n**by:**        ai/q\n**reply-to:**  node-root\n\n---\n\nline one\nline two\n\n---\n\n### thread links (1)\n\n- TASK-2  implements\n\n---\n\n### history\n\n| c2 |\n"
    );
    let none = render_node_show(&lookup, &ShowOptions::default());
    assert!(none.ends_with("### history\n\n_(history unavailable; no snapshot ref loaded)_\n"));
    let hidden = render_node_show(&lookup, &ShowOptions { no_timeline: true, ..ShowOptions::default() });
    assert!(!hidden.contains("### history"));
}
