use eevee_eval::bits::{absolute, exceeds, reaches, HALF, NEG_INFINITY, NEG_ONE, ONE, SIGN};
use eevee_eval::random::{WyRng, BLEND, STRIDE};
use rand::{Rng, RngCore};

fn samples() -> Vec<f64> {
    let mut list = vec![
        0.0,
        -0.0,
        0.5,
        -0.5,
        1.0,
        -1.0,
        f64::MIN_POSITIVE,
        -f64::MIN_POSITIVE,
        f64::from_bits(1),
        f64::from_bits(SIGN + 1),
        f64::EPSILON,
        f64::MAX,
        f64::MIN,
        f64::INFINITY,
        f64::NEG_INFINITY,
        f64::NAN,
        -f64::NAN,
        0.49999999999999994,
        0.5000000000000001,
        256.0,
        1e300,
        -1e-300,
    ];
    let mut rng = WyRng::seeded(7);
    for _ in 0..100 {
        list.push(f64::from_bits(rng.next_u64()));
    }
    list
}

#[test]
fn patterns_compare_like_numbers() {
    let list = samples();
    for a in &list {
        for b in &list {
            assert_eq!(exceeds(a.to_bits(), b.to_bits()), a > b, "{a} > {b}");
            assert_eq!(reaches(a.to_bits(), b.to_bits()), a >= b, "{a} >= {b}");
        }
    }
}

#[test]
fn named_patterns_are_the_numbers_they_name() {
    assert_eq!(HALF, 0.5f64.to_bits());
    assert_eq!(ONE, 1.0f64.to_bits());
    assert_eq!(NEG_ONE, (-1.0f64).to_bits());
    assert_eq!(NEG_INFINITY, f64::NEG_INFINITY.to_bits());
    assert_eq!(SIGN, (-0.0f64).to_bits());
}

#[test]
fn the_threshold_is_half() {
    assert!(reaches(0.5f64.to_bits(), HALF));
    assert!(!reaches(0.49999999999999994f64.to_bits(), HALF));
    assert!(!reaches(f64::NAN.to_bits(), HALF));
    assert!(reaches(f64::INFINITY.to_bits(), HALF));
}

#[test]
fn two_numbers_compare_in_exactly_one_way() {
    let (one, two) = (1.0f64.to_bits(), 2.0f64.to_bits());
    assert!(exceeds(two, one) && !exceeds(one, two) && !reaches(one, two));
    assert!(!exceeds(one, one) && reaches(one, one));
    assert!(!exceeds(0, SIGN) && !exceeds(SIGN, 0) && reaches(0, SIGN) && reaches(SIGN, 0));
}

#[test]
fn everything_else_is_above_negative_infinity() {
    assert!(exceeds(f64::MIN.to_bits(), NEG_INFINITY));
    assert!(!exceeds(NEG_INFINITY, NEG_INFINITY));
    assert!(!exceeds(f64::NAN.to_bits(), NEG_INFINITY));
}

#[test]
fn absolute_drops_the_sign() {
    for a in samples() {
        assert_eq!(absolute(a.to_bits()), a.abs().to_bits());
    }
}

#[test]
fn generator_yields_known_words() {
    let mut rng = WyRng::seeded(0);
    assert_eq!(rng.next_u64(), 0x9a45_cd88_8d59_f0d6);
    assert_eq!(rng.next_u64(), 0x0144_5b6a_1896_63f5);
    assert_eq!(rng.next_u64(), 0x1842_218b_97e7_a496);
    assert_eq!(rng.state, 0x87a0_a965_ff45_69ef);
    assert_eq!(WyRng::seeded(42).next_u64(), 0xca71_d87c_7698_3989);
    assert_eq!(WyRng::seeded(u64::MAX).next_u64(), 0x10ba_1525_e333_549e);
}

#[test]
fn generator_follows_its_formula() {
    let mut rng = WyRng::seeded(123);
    let mut state = 123u64;
    for _ in 0..100 {
        state = state.wrapping_add(STRIDE);
        let t = u128::from(state) * u128::from(state ^ BLEND);
        assert_eq!(rng.next_u64(), (t as u64) ^ (t >> 64) as u64);
        assert_eq!(rng.state, state);
    }
}

#[test]
fn half_words_are_the_low_halves() {
    assert_eq!(WyRng::seeded(0).next_u32(), 0x8d59_f0d6);
}

#[test]
fn bytes_come_lowest_first() {
    let mut bytes = [0u8; 11];
    let mut rng = WyRng::seeded(0);
    rng.fill_bytes(&mut bytes);
    assert_eq!(bytes[..8], 0x9a45_cd88_8d59_f0d6u64.to_le_bytes());
    assert_eq!(bytes[8..], 0x0144_5b6a_1896_63f5u64.to_le_bytes()[..3]);
    let mut words = WyRng::seeded(0);
    words.next_u64();
    words.next_u64();
    assert_eq!(rng.state, words.state);
}

#[test]
fn no_bytes_take_no_word() {
    let mut rng = WyRng::seeded(5);
    rng.fill_bytes(&mut []);
    assert_eq!(rng.state, 5);
}

#[test]
fn streams_can_be_read_in_pieces() {
    let mut whole = [0u8; 40];
    WyRng::seeded(9).fill_bytes(&mut whole);
    let mut rng = WyRng::seeded(9);
    let mut first = [0u8; 16];
    let mut second = [0u8; 24];
    rng.fill_bytes(&mut first);
    rng.fill_bytes(&mut second);
    assert_eq!(whole[..16], first);
    assert_eq!(whole[16..], second);
}

#[test]
fn ranges_stay_within_bounds() {
    let mut rng = WyRng::seeded(3);
    let mut seen = [false; 9];
    for _ in 0..500 {
        seen[rng.random_range(0..9usize)] = true;
    }
    assert_eq!(seen, [true; 9]);
}
