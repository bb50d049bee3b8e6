use git_forum::internal::commands::show::{
    render_state_diagram, render_tree, short_oid, single_line_preview, truncate_body, TreeChild,
};
use git_forum::internal::thread::ThreadState;

#[test]
fn single_line_preview_handles_multibyte_text() {
    let preview = single_line_preview("実装開始: CMake + ImGui + GLFW スケルトンアプリの構築", 20);
    assert!(preview.starts_with("実装開始"));
    assert!(preview.ends_with("..."));
}

#[test]
fn single_line_preview_joins_lines() {
    assert_eq!(single_line_preview("a\nb\nc", 80), "a / b / c");
}

#[test]
fn truncate_body_counts_characters() {
    assert_eq!(truncate_body("héllo", 5), "héllo");
    assert_eq!(truncate_body("héllo", 2), "hé...");
}

#[test]
fn short_oid_keeps_sixteen_bytes() {
    assert_eq!(short_oid("0123456789abcdef0123"), "0123456789abcdef");
    assert_eq!(short_oid("abc"), "abc");
}

#[test]
fn state_diagram_filters_by_category() {
    assert!(render_state_diagram("rfc", "open").join("\n").contains("withdrawn"));
    let task = render_state_diagram("task", "open").join("\n");
    assert!(!task.contains("withdrawn"));
    assert!(task.contains("working") && task.contains("review"));
    assert!(task.contains("[open]") && task.contains("done"));
}

#[test]
fn state_diagram_of_unknown_category() {
    assert_eq!(render_state_diagram("nope", "open"), vec!["  (unknown category `nope`)".to_string()]);
}

#[test]
fn render_tree_lists_implements_children() {
    let parent = ThreadState {
        id: "RFC-PARENT".into(),
        category: "rfc".into(),
        title: "Parent RFC".into(),
        status: "done".into(),
        ..Default::default()
    };
    let children = vec![
        TreeChild {
            id: "TASK-A".into(),
            title: "Add FTS5 schema".into(),
            lifecycle_label: "execution".into(),
            status: "open".into(),
        },
        TreeChild {
            id: "TASK-B".into(),
            title: "Switch search to FTS5".into(),
            lifecycle_label: "execution".into(),
            status: "open".into(),
        },
    ];
    let out = render_tree(&parent, &children);
    assert!(out.contains("RFC-PARENT"));
    assert!(out.contains("Parent RFC"));
    assert!(out.contains("├── TASK-A"));
    assert!(out.contains("└── TASK-B"));
    assert!(out.contains("execution/open"));
}

#[test]
fn render_tree_no_children_shows_marker() {
    let parent = ThreadState {
        id: "RFC-LONELY".into(),
        category: "rfc".into(),
        title: "Lonely RFC".into(),
        status: "draft".into(),
        ..Default::default()
    };
    let out = render_tree(&parent, &[]);
    assert!(out.contains("RFC-LONELY"));
    assert!(out.contains("(no incoming `implements` links)"));
}

use git_forum::internal::commands::show::{
    ConversationChain, ConversationNode, ConversationsSection, OpenItem, OpenItemsSection, Section,
};
use git_forum::internal::event::NodeType;

fn cnode(id: &str, body: &str) -> ConversationNode {
    ConversationNode {
        id_short: id.into(),
        kind: NodeType::Comment,
        label: "claim".into(),
        status_label: "open".into(),
        author: "human/a".into(),
        body: body.into(),
    }
}

#[test]
fn open_items_section_lines() {
    let sec = OpenItemsSection {
        thread_id: "T-1".into(),
        items: vec![OpenItem { id_short: "n1".into(), author: "human/a".into(), body: "why\nmore".into(), kind: NodeType::Objection }],
        with_reply: true,
        compact: false,
    };
    assert_eq!(
        Section::OpenObjections(sec.clone()).to_text_lines(),
        vec![
            "## Open objections (1)".to_string(),
            String::new(),
            "  n1  human/a  why".to_string(),
            "    resolve: git forum resolve T-1 n1".to_string(),
            "    reply:   git forum claim T-1 --reply-to n1 --body \"...\"".to_string(),
            String::new(),
        ]
    );
    let empty = OpenItemsSection { items: vec![], ..sec };
    assert!(Section::OpenActions(empty).to_text_lines().is_empty());
    assert_eq!(Section::Text(vec!["x".into()]).to_text_lines(), vec!["x".to_string()]);
}

#[test]
fn conversations_section_lines() {
    let sec = ConversationsSection {
        thread_id: "T-1".into(),
        chains: vec![
            ConversationChain { nodes: vec![cnode("r1", "root text"), cnode("c1", "reply")], last_is_open: true },
            ConversationChain { nodes: vec![cnode("r2", "second")], last_is_open: false },
        ],
        compact: false,
        incorporated_count: 3,
    };
    assert_eq!(
        Section::Conversations(sec.clone()).to_text_lines(),
        vec![
            "## Conversations (2)".to_string(),
            String::new(),
            "### r1 claim [open] human/a".to_string(),
            "> root text".to_string(),
            "- c1 claim human/a — reply".to_string(),
            String::new(),
            "    reply: git forum claim T-1 --reply-to c1 --body \"...\"".to_string(),
            String::new(),
            "### r2 claim [open] human/a".to_string(),
            "> second".to_string(),
            String::new(),
        ]
    );
    let compact = ConversationsSection { compact: true, ..sec };
    assert_eq!(
        Section::Conversations(compact).to_text_lines(),
        vec![
            "## Conversations (2) (3 incorporated)".to_string(),
            String::new(),
            "  r1 claim [open] human/a — root text".to_string(),
            "  r2 claim [open] human/a — second".to_string(),
            String::new(),
        ]
    );
}
