use git_forum::internal::id_alloc::{
    alloc_thread_id, alloc_thread_id_with_nonce, base36_encode, is_bare_token, is_opaque_id,
    is_sequential_id, is_valid_thread_id,
};
use git_forum::internal::thread::ThreadKind;

#[test]
fn alloc_id_format_opaque() {
    let id = alloc_thread_id_with_nonce(
        ThreadKind::Rfc,
        "human/alice",
        "Test RFC",
        "2026-01-01T00:00:00Z",
        &[1, 2, 3, 4, 5, 6, 7, 8],
    );
    assert!(id.starts_with("RFC-"), "got: {id}");
    let token = &id[4..];
    assert_eq!(token.len(), 8, "token length: {}", token.len());
    assert!(
        token.chars().all(|c| c.is_ascii_lowercase() || c.is_ascii_digit()),
        "token contains invalid chars: {token}"
    );
}

#[test]
fn different_nonces_produce_different_ids() {
    let id1 = alloc_thread_id_with_nonce(
        ThreadKind::Issue,
        "human/alice",
        "Same title",
        "2026-01-01T00:00:00Z",
        &[1, 2, 3, 4, 5, 6, 7, 8],
    );
    let id2 = alloc_thread_id_with_nonce(
        ThreadKind::Issue,
        "human/alice",
        "Same title",
        "2026-01-01T00:00:00Z",
        &[9, 10, 11, 12, 13, 14, 15, 16],
    );
    assert_ne!(id1, id2);
}

#[test]
fn same_inputs_give_the_same_id() {
    let a = alloc_thread_id_with_nonce(ThreadKind::Dec, "a", "t", "ts", &[0; 8]);
    let b = alloc_thread_id_with_nonce(ThreadKind::Dec, "a", "t", "ts", &[0; 8]);
    assert_eq!(a, b);
    assert!(a.starts_with("DEC-"));
}

#[test]
fn nonce_randomness_produces_unique_ids() {
    let id1 = alloc_thread_id(ThreadKind::Rfc, "human/alice", "Title", "2026-01-01T00:00:00Z");
    let id2 = alloc_thread_id(ThreadKind::Rfc, "human/alice", "Title", "2026-01-01T00:00:00Z");
    assert_ne!(id1, id2);
}

#[test]
fn is_opaque_id_valid() {
    assert!(is_opaque_id("RFC-a7f3b2x1"));
    assert!(is_opaque_id("ASK-0a1b2c3d"));
    assert!(is_opaque_id("JOB-x8n2q1d4"));
}

#[test]
fn is_opaque_id_rejects_sequential() {
    assert!(!is_opaque_id("RFC-0001"));
    assert!(!is_opaque_id("ASK-0042"));
}

#[test]
fn is_opaque_id_rejects_invalid() {
    assert!(!is_opaque_id("RFC-short"));
    assert!(!is_opaque_id("RFC-TOOLONG9"));
    assert!(!is_opaque_id("UNKNOWN-a7f3b2x1"));
    assert!(!is_opaque_id("no-dash-prefix"));
}

#[test]
fn is_sequential_id_valid() {
    assert!(is_sequential_id("RFC-0001"));
    assert!(is_sequential_id("ASK-0042"));
    assert!(is_sequential_id("ISSUE-0001"));
    assert!(is_sequential_id("TASK-0001"));
}

#[test]
fn is_sequential_id_rejects_opaque() {
    assert!(!is_sequential_id("RFC-a7f3b2x1"));
}

#[test]
fn is_valid_thread_id_both_formats() {
    assert!(is_valid_thread_id("RFC-0001"));
    assert!(is_valid_thread_id("RFC-a7f3b2x1"));
    assert!(!is_valid_thread_id("UNKNOWN-0001"));
    assert!(!is_valid_thread_id("garbage"));
}

#[test]
fn bare_tokens_are_not_thread_ids() {
    assert!(is_bare_token("a7f3b2x1"));
    assert!(!is_bare_token("12345678"));
    assert!(!is_bare_token("A7F3B2X1"));
    assert!(!is_valid_thread_id("a7f3b2x1"));
}

#[test]
fn alloc_id_format_legacy() {
    let formatted = format!("{}-{:04}", "RFC", 1u32);
    assert_eq!(formatted, "RFC-0001");
}

#[test]
fn base36_encode_deterministic() {
    let input = [0u8, 1, 35, 36, 37, 255, 100, 200];
    let result = base36_encode(&input, 8);
    assert_eq!(result.len(), 8);
    assert!(result.chars().all(|c| c.is_ascii_lowercase() || c.is_ascii_digit()));
}

#[test]
fn base36_encode_exact_digits() {
    assert_eq!(base36_encode(&[0u8, 1, 35, 36, 37, 255, 100, 200], 8), "01z013sk");
}

#[test]
fn allocated_ids_are_recognised() {
    for kind in [ThreadKind::Issue, ThreadKind::Rfc, ThreadKind::Dec, ThreadKind::Task] {
        for n in 0u8..20 {
            let id = alloc_thread_id_with_nonce(kind, "human/alice", "A title", "2026-01-01T00:00:00Z", &[n; 8]);
            let token = &id[4..];
            if !token.chars().all(|c| c.is_ascii_digit()) {
                assert!(is_opaque_id(&id), "{id}");
            }
        }
    }
}

#[test]
fn allocated_ids_are_valid() {
    for i in 0..200 {
        let title = format!("Title {i}");
        let id = alloc_thread_id(ThreadKind::Task, "human/alice", &title, "2026-01-01T00:00:00Z");
        assert!(is_valid_thread_id(&id), "got: {id}");
    }
}
