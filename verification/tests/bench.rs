use monaka_vfs::bench::{generate_test_data, Rng, SimpleRng};

#[test]
fn test_data_repeats_the_byte_pattern() {
    let d = generate_test_data(600);
    assert_eq!(d.len(), 600);
    assert_eq!(d[0], 0);
    assert_eq!(d[255], 255);
    assert_eq!(d[256], 0);
    assert_eq!(d[599], (599 % 256) as u8);
    assert!(generate_test_data(0).is_empty());
}

#[test]
fn xorshift_sequence() {
    let mut r = SimpleRng::new(1);
    assert_eq!(r.next_u64(), 1082269761);
    assert_eq!(r.next_u64(), 1152992998833853505);
    let mut r = SimpleRng::new(1);
    assert_eq!(r.next_range(10), 1);
    assert_eq!(r.next_range(0), 0);
    assert_eq!(r.state, 1082269761);
}

#[test]
fn random_ids_are_sixteen_hex_digits() {
    let mut r = Rng::from_seed(42);
    assert_eq!(r.random_id(), "37c59cad2a57f4f8");
    let mut r2 = Rng::from_seed(42);
    assert_eq!(r2.next(), 0x37c59cad2a57f4f8);
}
