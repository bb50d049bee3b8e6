use git_forum::internal::git_batch::tree_entries;

fn entry_bytes(mode: &str, name: &str, id: &[u8]) -> Vec<u8> {
    let mut out = format!("{mode} {name}\0").into_bytes();
    out.extend_from_slice(id);
    out
}

#[test]
fn tree_entries_read_sha1_and_sha256_ids() {
    for id_len in [20, 32] {
        let a: Vec<u8> = (0..id_len as u8).collect();
        let b = vec![0xab; id_len];
        let mut data = entry_bytes("100644", "thread.toml", &a);
        data.extend(entry_bytes("40000", "nodes", &b));
        let entries = tree_entries(&data, id_len).unwrap();
        assert_eq!(entries.len(), 2);
        assert_eq!(entries[0].mode, "100644");
        assert_eq!(entries[0].name, "thread.toml");
        assert_eq!(entries[0].id.len(), id_len * 2);
        assert!(entries[0].id.starts_with("000102"));
        assert_eq!(entries[1].mode, "40000");
        assert_eq!(entries[1].id, "ab".repeat(id_len));
    }
}

#[test]
fn tree_entries_reject_a_cut_off_tree() {
    let data = entry_bytes("100644", "thread.toml", &[1; 20]);
    assert!(tree_entries(&data[..data.len() - 1], 20).is_err());
    assert!(tree_entries(b"100644 no-nul", 20).is_err());
}

#[test]
fn tree_entries_of_empty_tree_is_empty() {
    assert!(tree_entries(&[], 20).unwrap().is_empty());
}

#[test]
fn tree_entries_decode_names_lossily() {
    let data = entry_bytes("100644", "a\u{fffd}", &[0; 20]);
    let mut raw = b"100644 a\xff\0".to_vec();
    raw.extend_from_slice(&[0; 20]);
    let e = tree_entries(&raw, 20).unwrap();
    assert_eq!(e[0].name, "a\u{fffd}");
    assert_eq!(tree_entries(&data, 20).unwrap()[0].name, "a\u{fffd}");
}
