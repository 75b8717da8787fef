use drand_prime::beacon::{
    derive_seed, next_bounded, next_uint, random, BeaconError, BeaconRecord, RandomStream,
};
use num_bigint::RandBigInt;
use rand::SeedableRng;
use rand_chacha::ChaCha12Rng;
use drand_prime::bignum::BigNat;
use num_bigint::BigUint;

fn to_big(n: &BigNat) -> BigUint {
    BigUint::new(n.digits().clone())
}

fn record(signature: &str) -> BeaconRecord {
    BeaconRecord {
        round: 1,
        randomness: String::from("00"),
        signature: String::from(signature),
        previous_signature: String::new(),
    }
}

fn zero_signature() -> String {
    "00".repeat(32)
}

#[test]
fn seed_of_zero_signature() {
    let seed = derive_seed(&zero_signature()).unwrap();
    assert_eq!(
        hex::encode(seed),
        "66687aadf862bd776c8fc18b8e9f8e20089714856ee233b3902a591d0d5f2925"
    );
}

#[test]
fn seed_is_deterministic() {
    let sig = "8d61d9100567de44682506aea1a7a6fa6e5491cd27a0a0ed349ef6910ac5ac20ff7bc3e09d7c046566c9f7f3c6f3b10104990e7cb424998203d8f7de586fb7fa5f60045417a432684f85093b06ca91c769f0e7ca19268375e659c2a2352b4655";
    assert_eq!(derive_seed(sig).unwrap(), derive_seed(sig).unwrap());
    assert_eq!(derive_seed(sig).unwrap(), derive_seed(&sig.to_uppercase()).unwrap());
    assert_ne!(derive_seed(sig).unwrap(), derive_seed(&zero_signature()).unwrap());
}

#[test]
fn seed_of_empty_signature() {
    let seed = derive_seed("").unwrap();
    assert_eq!(
        hex::encode(seed),
        "e3b0c44298fc1c149afbf4c8996fb92427ae41e4649b934ca495991b7852b855"
    );
}

#[test]
fn malformed_signatures_are_decode_errors() {
    assert_eq!(derive_seed("123"), Err(BeaconError::Decode));
    assert_eq!(derive_seed("0g"), Err(BeaconError::Decode));
    assert_eq!(derive_seed("zz00"), Err(BeaconError::Decode));
    assert_eq!(derive_seed("é0"), Err(BeaconError::Decode));
    assert_eq!(random(&record("abc")).unwrap_err(), BeaconError::Decode);
}

#[test]
fn next_uint_is_reproducible() {
    let seed = derive_seed(&zero_signature()).unwrap();
    let a = next_uint(&seed, 2048);
    let b = next_uint(&seed, 2048);
    assert_eq!(a.digits(), b.digits());
    assert!(to_big(&a).bits() <= 2048);
    assert!(to_big(&a).bits() > 2000);
    let other = next_uint(&[1u8; 32], 2048);
    assert_ne!(to_big(&a), to_big(&other));
    assert!(to_big(&next_uint(&seed, 10)) < BigUint::from(1024u32));
}

#[test]
fn bounded_draw_is_reproducible() {
    let seed = derive_seed(&zero_signature()).unwrap();
    let a = next_bounded(&seed, 100_000_000);
    assert_eq!(a, next_bounded(&seed, 100_000_000));
    assert!(a < 100_000_000);
    // The golden value of the zero signature's seed and a limit of 10^8.
    assert_eq!(a, 19906092);
    assert_eq!(next_bounded(&seed, 1), 0);
}

#[test]
fn random_of_record() {
    let r = random(&record(&zero_signature())).unwrap();
    let seed = derive_seed(&zero_signature()).unwrap();
    assert_eq!(to_big(&r), to_big(&next_uint(&seed, 2048)));
    assert_eq!(to_big(&r), to_big(&random(&record(&zero_signature())).unwrap()));
}

#[test]
fn stream_continues_where_the_last_draw_ended() {
    let seed = derive_seed(&zero_signature()).unwrap();
    let mut reference = ChaCha12Rng::from_seed(seed);
    let mut stream = RandomStream::seeded(seed);
    for bits in [2048u64, 10, 0, 33, 64, 1, 100, 2048] {
        let expected = reference.gen_biguint(bits);
        let got = stream.next_uint(bits);
        assert_eq!(to_big(&got), expected, "at width {}", bits);
    }
}

#[test]
fn stream_draws_are_reproducible() {
    let seed = [9u8; 32];
    let mut a = RandomStream::seeded(seed);
    let mut b = RandomStream::seeded(seed);
    let first = a.next_uint(2048);
    assert_eq!(to_big(&first), to_big(&b.next_uint(2048)));
    assert_eq!(to_big(&first), to_big(&next_uint(&seed, 2048)));
    let second = a.next_uint(2048);
    assert_eq!(to_big(&second), to_big(&b.next_uint(2048)));
    assert_ne!(to_big(&first), to_big(&second));
}
