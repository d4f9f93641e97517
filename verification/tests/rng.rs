use starfall_dominion::rng::{Rng, UNIT_DENOMINATOR};

/// A probability as a `chance` threshold out of 2^53.
fn threshold(probability: f64) -> u64 {
    (probability * UNIT_DENOMINATOR as f64).ceil() as u64
}

#[test]
fn same_seed_same_sequence_and_ranges_hold() {
    let mut a = Rng::new(7);
    let mut b = Rng::new(7);
    let mut c = Rng::new(8);
    let first: Vec<u64> = (0..8).map(|_| a.next_u64()).collect();
    let again: Vec<u64> = (0..8).map(|_| b.next_u64()).collect();
    let other: Vec<u64> = (0..8).map(|_| c.next_u64()).collect();
    assert_eq!(first, again);
    assert_ne!(first, other);
    for _ in 0..1000 {
        let value = a.range(6, 12);
        assert!((6..=12).contains(&value));
        let unit = a.unit();
        assert!((0..UNIT_DENOMINATOR).contains(&unit));
    }
    assert_eq!(a.range(5, 5), 5);
    let hits = (0..2000).filter(|_| a.chance(threshold(0.35))).count();
    assert!((550..850).contains(&hits), "{hits} of 2000 at 35%");
}

#[test]
fn the_seed_is_scrambled_with_splitmix_and_kept_odd() {
    // splitmix64 of zero is 0xE220A8397B1DCDAF; it is already odd.
    let mut rng = Rng::new(0);
    let mut x: u64 = 0xE220_A839_7B1D_CDAF;
    x ^= x >> 12;
    x ^= x << 25;
    x ^= x >> 27;
    assert_eq!(rng.next_u64(), x.wrapping_mul(0x2545_F491_4F6C_DD1D));
}

#[test]
fn a_reversed_range_gives_its_low_end() {
    let mut rng = Rng::new(99);
    for _ in 0..20 {
        assert_eq!(rng.range(9, 3), 9);
    }
}
