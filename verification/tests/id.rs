use git_forum::internal::id::{ulid_from_parts, IdGenerator, SequentialIdGenerator, UlidGenerator};

#[test]
fn sequential_id_generator() {
    let mut gen = SequentialIdGenerator::new("test");
    assert_eq!(gen.next_id(), "test-0001");
    assert_eq!(gen.next_id(), "test-0002");
    assert_eq!(gen.next_id(), "test-0003");
}

#[test]
fn ulid_generator_produces_unique_ids() {
    let mut gen = UlidGenerator;
    let a = gen.next_id();
    let b = gen.next_id();
    assert_ne!(a, b);
}

#[test]
fn ulid_layout_is_fixed_width_hex() {
    assert_eq!(ulid_from_parts(0x19a, 0xdead_beef), "000000000019a-00000000deadbeef");
    assert_eq!(ulid_from_parts(0, u64::MAX), "0000000000000-ffffffffffffffff");
    let mut gen = UlidGenerator;
    let id = gen.next_id();
    assert_eq!(id.len(), 13 + 1 + 16);
    assert_eq!(&id[13..14], "-");
}

#[test]
fn sequential_ids_widen_past_four_digits() {
    let mut gen = SequentialIdGenerator::new("x");
    let mut last = String::new();
    for _ in 0..10000 {
        last = gen.next_id();
    }
    assert_eq!(last, "x-10000");
}
