use monaka_vfs::session::session_id_from_random_bytes;
use std::collections::HashSet;

fn counter_bytes(seq: u64) -> [u8; 16] {
    let mut out = [0u8; 16];
    out[..8].copy_from_slice(&seq.to_le_bytes());
    out[8..].copy_from_slice(&0x0123_4567_89ab_cdefu64.to_le_bytes());
    out
}

#[test]
fn session_id_is_uuid_simple_form() {
    let id = session_id_from_random_bytes(counter_bytes(0));
    assert_eq!(id.len(), 32);
    assert!(id.chars().all(|c| c.is_ascii_hexdigit()));
}

#[test]
fn session_ids_are_unique_across_many_generations() {
    let n = 5_000;
    let mut seen = HashSet::with_capacity(n);
    for i in 0..n {
        let id = session_id_from_random_bytes(counter_bytes(i as u64));
        assert!(seen.insert(id), "collision within {} generations", n);
    }
}

#[test]
fn session_id_sets_version_and_variant() {
    let id = session_id_from_random_bytes([0xff; 16]);
    assert_eq!(id, "ffffffffffff4fffbfffffffffffffff");
    let id = session_id_from_random_bytes([0u8; 16]);
    assert_eq!(id, "00000000000040008000000000000000");
    let bytes: [u8; 16] = [
        0x12, 0x34, 0x56, 0x78, 0x9a, 0xbc, 0xde, 0xf0, 0x12, 0x34, 0x56, 0x78, 0x9a, 0xbc, 0xde,
        0xf0,
    ];
    assert_eq!(session_id_from_random_bytes(bytes), "123456789abc4ef0923456789abcdef0");
}
