use git_forum::internal::evidence::{EvidenceFile, EvidenceKind};

#[test]
fn evidence_kind_roundtrip() {
    for kind in [EvidenceKind::Commit, EvidenceKind::File, EvidenceKind::Benchmark, EvidenceKind::External] {
        let s = kind.to_string();
        let parsed: EvidenceKind = s.parse().unwrap();
        assert_eq!(parsed, kind);
    }
}

#[test]
fn evidence_kind_unknown_returns_err() {
    assert!("bogus".parse::<EvidenceKind>().is_err());
}

#[test]
fn evidence_kind_unknown_message_lists_kinds() {
    assert_eq!(
        EvidenceKind::parse("bogus").unwrap_err(),
        "unknown evidence kind 'bogus'; valid: commit, file, hunk, test, benchmark, doc, thread, external"
    );
}

#[test]
fn evidence_file_empty() {
    assert!(EvidenceFile::default().is_empty());
}
