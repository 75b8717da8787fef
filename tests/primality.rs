use drand_prime::beacon::BeaconError;
use drand_prime::bignum::BigNat;
use drand_prime::primality::{decompose, find_next_prime, is_prime, is_prime_with, miller_rabin};
use num_bigint::BigUint;
use rand::SeedableRng;
use rand_chacha::ChaCha12Rng;

fn big(v: &BigUint) -> BigNat {
    BigNat::from_digits(v.to_u32_digits())
}

fn to_big(n: &BigNat) -> BigUint {
    BigUint::new(n.digits().clone())
}

fn small(n: &BigNat) -> u64 {
    let d = n.digits();
    let mut v: u64 = 0;
    for (i, x) in d.iter().enumerate() {
        if *x != 0 {
            assert!(i < 2);
            v += (*x as u64) << (32 * i);
        }
    }
    v
}

fn naive_prime(n: u64) -> bool {
    if n < 2 {
        return false;
    }
    let mut f = 2;
    while f * f <= n {
        if n % f == 0 {
            return false;
        }
        f += 1;
    }
    true
}

fn rng() -> ChaCha12Rng {
    ChaCha12Rng::seed_from_u64(7)
}

#[test]
fn small_primes_are_accepted_for_every_round_count() {
    for k in 1..4 {
        for n in [2u64, 3, 5, 7, 11, 97, 7919, 104729] {
            assert!(is_prime(&BigNat::from_u64(n), k, &mut rng()), "{} rejected", n);
        }
    }
}

#[test]
fn small_composites_and_carmichael_numbers_are_rejected() {
    for k in 1..4 {
        for n in [0u64, 1, 4, 100, 561, 1105, 1729] {
            assert!(!is_prime(&BigNat::from_u64(n), k, &mut rng()), "{} accepted", n);
        }
    }
}

#[test]
fn boundary_values() {
    assert!(is_prime(&BigNat::from_u64(2), 1, &mut rng()));
    assert!(is_prime(&BigNat::from_u64(3), 1, &mut rng()));
    assert!(!is_prime(&BigNat::from_u64(1), 1, &mut rng()));
    assert!(!is_prime(&BigNat::from_u64(4), 1, &mut rng()));
}

#[test]
fn fixed_bases_agree_with_trial_division() {
    for n in 0u64..3000 {
        assert_eq!(is_prime(&BigNat::from_u64(n), 1, &mut rng()), naive_prime(n), "at {}", n);
    }
}

#[test]
fn largest_fixed_range_values() {
    // 2^64 - 59 is the largest prime below 2^64.
    assert!(is_prime(&BigNat::from_u64(u64::MAX - 58), 1, &mut rng()));
    assert!(!is_prime(&BigNat::from_u64(u64::MAX), 1, &mut rng()));
    // A strong pseudoprime to bases 2 through 23 is still caught by 29..37.
    assert!(!is_prime(&BigNat::from_u64(3825123056546413051), 1, &mut rng()));
}

#[test]
fn large_values_take_the_random_path() {
    let mersenne = (BigUint::from(1u32) << 127usize) - BigUint::from(1u32);
    assert!(is_prime(&big(&mersenne), 8, &mut rng()));
    let fermat6 = (BigUint::from(1u32) << 64usize) + BigUint::from(1u32);
    assert!(!is_prime(&big(&fermat6), 8, &mut rng()));
    let square = &mersenne * &mersenne;
    assert!(!is_prime(&big(&square), 8, &mut rng()));
}

#[test]
fn witnesses_outside_the_range_are_passed_over() {
    let n = BigNat::from_u64(561);
    let invalid = vec![BigNat::from_u64(0), BigNat::from_u64(1), BigNat::from_u64(560)];
    assert!(is_prime_with(&n, &invalid));
    let with_two = vec![BigNat::from_u64(1), BigNat::from_u64(2)];
    assert!(!is_prime_with(&n, &with_two));
    assert!(!is_prime_with(&BigNat::from_u64(1), &vec![]));
    assert!(is_prime_with(&BigNat::from_u64(3), &vec![]));
}

#[test]
fn decompose_gives_odd_part_and_power() {
    for n in [3u64, 5, 7, 9, 17, 97, 561, 7919, 65537, 104729] {
        let (d, r) = decompose(&BigNat::from_u64(n));
        let d = small(&d);
        let r = small(&r);
        assert_eq!(d % 2, 1, "at {}", n);
        assert_eq!(d << r, n - 1, "at {}", n);
    }
    let (d, r) = decompose(&BigNat::from_u64(65537));
    assert_eq!(small(&d), 1);
    assert_eq!(small(&r), 16);
}

#[test]
fn miller_rabin_round() {
    // 561 - 1 = 35 * 2^4; 2^35 = 263 (mod 561), then 166, 67, 1.
    let n = BigNat::from_u64(561);
    let (d, r) = decompose(&n);
    assert!(miller_rabin(&BigNat::from_u64(2), &n, &d, &r));
    let p = BigNat::from_u64(97);
    let (d, r) = decompose(&p);
    for a in 2u64..96 {
        assert!(!miller_rabin(&BigNat::from_u64(a), &p, &d, &r));
    }
}

#[test]
fn next_prime_search() {
    let cases = [(0u64, 3u64), (1, 3), (2, 3), (3, 3), (14, 17), (90, 97), (7908, 7919), (7920, 7927)];
    for (n, p) in cases {
        let r = find_next_prime(&BigNat::from_u64(n), 1, 1000, &mut rng()).unwrap();
        assert_eq!(small(&r), p, "from {}", n);
    }
}

#[test]
fn next_prime_skips_no_prime() {
    for n in 0u64..500 {
        let p = small(&find_next_prime(&BigNat::from_u64(n), 1, 1000, &mut rng()).unwrap());
        let start = if n % 2 == 1 { n } else { n + 1 };
        assert!(p >= start && naive_prime(p));
        for c in (start..p).step_by(2) {
            assert!(!naive_prime(c), "{} skipped from {}", c, n);
        }
    }
}

#[test]
fn next_prime_search_exhausted() {
    // From 24 the candidates 25 and 27 are both composite.
    let r = find_next_prime(&BigNat::from_u64(24), 1, 2, &mut rng());
    assert_eq!(r.unwrap_err(), BeaconError::SearchExhausted);
    let r = find_next_prime(&BigNat::from_u64(24), 1, 0, &mut rng());
    assert_eq!(r.unwrap_err(), BeaconError::SearchExhausted);
    let r = find_next_prime(&BigNat::from_u64(24), 1, 3, &mut rng());
    assert_eq!(small(&r.unwrap()), 29);
}

#[test]
fn next_prime_above_two_to_the_64() {
    let start = BigUint::from(1u32) << 64usize;
    let p = find_next_prime(&big(&start), 4, 10000, &mut rng()).unwrap();
    // 2^64 + 13 is the first prime above 2^64.
    assert_eq!(to_big(&p), start + BigUint::from(13u32));
}

#[test]
fn big_number_conversions() {
    let a = BigNat::from_u64(u64::MAX);
    assert_eq!(to_big(&a), BigUint::from(u64::MAX));
    assert_eq!(small(&a.copy()), u64::MAX);
    let padded = BigNat::from_digits(vec![7, 0, 0]);
    assert_eq!(small(&padded), 7);
    assert!(padded.is_odd());
    assert!(BigNat::from_u64(9).is_odd());
    assert!(!BigNat::from_u64(10).is_odd());
    assert!(!BigNat::from_u64(0).is_odd());
    assert!(BigNat::from_digits(vec![1, 2]).is_odd());
    assert!(!BigNat::from_digits(vec![0, 1]).is_odd());
}

#[test]
fn primes_pass_with_any_witnesses() {
    let p = BigNat::from_u64(7919);
    let ws: Vec<BigNat> = (0u64..7919).step_by(7).map(BigNat::from_u64).collect();
    assert!(is_prime_with(&p, &ws));
    let c = BigNat::from_u64(7917);
    assert!(!is_prime_with(&c, &ws));
}

#[test]
fn next_prime_exhausted_above_two_to_the_64() {
    // 2^64 + 1 = 274177 * 67280421310721; the first prime above 2^64 is 2^64 + 13.
    let start = BigUint::from(1u32) << 64usize;
    let r = find_next_prime(&big(&start), 4, 6, &mut rng());
    assert_eq!(r.unwrap_err(), BeaconError::SearchExhausted);
    let r = find_next_prime(&big(&start), 4, 7, &mut rng()).unwrap();
    assert_eq!(to_big(&r), start + BigUint::from(13u32));
}
