use color_evolution_sim::prng::Xoshiro256;

#[test]
fn seeded_sequence_is_reproducible() {
    let mut a = Xoshiro256::new(12345);
    let mut b = Xoshiro256::new(12345);
    for _ in 0..100 {
        assert_eq!(a.next_u64(), b.next_u64());
    }
}

#[test]
fn first_values_for_seed_12345() {
    let mut g = Xoshiro256::new(12345);
    assert_eq!(g.next_u64(), 9940793396233540349);
    // all four state words start equal, so the second value repeats the first
    assert_eq!(g.next_u64(), 9940793396233540349);
    assert_eq!(g.next_u64(), 10797872795741061219);
    assert_eq!(g.next_u64(), 2482755726130058080);
}

#[test]
fn first_value_for_seed_zero() {
    let mut g = Xoshiro256::new(0);
    assert_eq!(g.next_u64(), 16053376993090331485);
}

#[test]
fn derived_draws() {
    let mut g = Xoshiro256::new(12345);
    assert_eq!(g.next_u32(), 2314521324);
    assert_eq!(g.next_unit_numerator(), 9041098);
    assert_eq!(g.next_in_range(0, 1000), 219);
    // an empty range returns its lower end without drawing
    assert_eq!(g.next_in_range(5, 5), 5);
    assert_eq!(g.next_in_range(10, 20), 10);
}

#[test]
fn derived_draws_are_the_high_bits() {
    let mut a = Xoshiro256::new(42);
    let mut b = Xoshiro256::new(42);
    let mut c = Xoshiro256::new(42);
    for _ in 0..20 {
        let x = a.next_u64();
        assert_eq!(b.next_u32() as u64, x >> 32);
        let n = c.next_unit_numerator();
        assert_eq!(n as u64, x >> 40);
        assert!(n < (1 << 24));
    }
}

#[test]
fn next_in_range_stays_in_range() {
    let mut g = Xoshiro256::new(7);
    for _ in 0..1000 {
        let r = g.next_in_range(3, 10);
        assert!((3..10).contains(&r));
    }
    assert_eq!(g.next_in_range(9, 2), 9);
}

#[test]
fn distinct_seeds_start_distinct_sequences() {
    let seeds: [u64; 6] = [0, 1, 2, 12345, 0x61C8864680B583EB, u64::MAX];
    let firsts: Vec<u64> = seeds.iter().map(|&s| Xoshiro256::new(s).next_u64()).collect();
    for i in 0..firsts.len() {
        for j in i + 1..firsts.len() {
            assert_ne!(firsts[i], firsts[j], "seeds {} and {}", seeds[i], seeds[j]);
        }
    }
}
