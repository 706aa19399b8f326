use memdb::pseudo_rand::PseudoRand;

#[test]
fn first_bytes_of_a_fresh_generator() {
    let mut rng = PseudoRand::new();
    let bytes: Vec<u8> = (0..8).map(|_| rng.next_u8()).collect();
    assert_eq!(bytes, vec![95, 50, 233, 52, 3, 134, 45, 168]);
}

#[test]
fn next_int_maps_into_the_range() {
    let mut rng = PseudoRand::new();
    assert_eq!(rng.next_int(192, 2048), 985);
    assert_eq!(rng.next_int(192, 2048), 566);
}

#[test]
fn next_int_with_a_single_value_range() {
    let mut rng = PseudoRand::new();
    assert_eq!(rng.next_int(10, 10), 10);
    assert_eq!(rng.next_int(0, 0), 0);
}

#[test]
fn next_int_small_range() {
    let mut rng = PseudoRand::new();
    assert_eq!(rng.next_int(5, 7), 6);
}

#[test]
fn next_int_stays_within_bounds() {
    let mut rng = PseudoRand::new();
    for _ in 0..10_000 {
        let value = rng.next_int(0, 10_000);
        assert!(value <= 10_000);
    }
    for _ in 0..10_000 {
        let value = rng.next_int(u32::MAX - 3, u32::MAX);
        assert!(value >= u32::MAX - 3);
    }
}

#[test]
fn generators_are_deterministic() {
    let mut a = PseudoRand::new();
    let mut b = PseudoRand::new();
    for _ in 0..100 {
        assert_eq!(a.next_u8(), b.next_u8());
    }
}
