//! From a beacon's signature to a seed, and from a seed to random numbers.
use vstd::prelude::*;
use vstd::arithmetic::power2::pow2;
use crate::bignum::BigNat;
use num_bigint::{BigUint, RandBigInt};
use rand::{Rng, SeedableRng};
use rand_chacha::ChaCha12Rng;
use sha2::{Digest, Sha256};

verus! {

#[verifier::external_type_specification]
#[verifier::external_body]
pub struct ExChaCha12Rng(ChaCha12Rng);

#[verifier::external_type_specification]
#[verifier::external_body]
pub struct ExFromHexError(hex::FromHexError);

/// Why a value could not be produced.
#[derive(Clone, Copy, Debug, PartialEq, Eq, Structural)]
pub enum BeaconError {
    /// The beacon could not be reached, or answered with a failure.
    Transport,
    /// The beacon's record, or its signature, is malformed.
    Decode,
    /// The prime search reached its ceiling without finding a prime.
    SearchExhausted,
}

/// One round of the beacon, as it publishes it.
#[derive(Clone, Debug)]
pub struct BeaconRecord {
    pub round: u64,
    pub randomness: String,
    pub signature: String,
    pub previous_signature: String,
}

pub open spec fn is_hex_digit(c: char) -> bool {
    ||| 48 <= c as u32 <= 57
    ||| 97 <= c as u32 <= 102
    ||| 65 <= c as u32 <= 70
}

pub open spec fn hex_digit_value(c: char) -> nat {
    if 48 <= c as u32 <= 57 {
        (c as u32 - 48) as nat
    } else if 97 <= c as u32 <= 102 {
        (c as u32 - 87) as nat
    } else {
        (c as u32 - 55) as nat
    }
}

/// An even number of hexadecimal digits, in either case.
pub open spec fn is_hex(s: Seq<char>) -> bool {
    s.len() % 2 == 0 && forall|i: int| 0 <= i < s.len() ==> is_hex_digit(#[trigger] s[i])
}

/// The bytes that a hexadecimal text spells, two digits to a byte.
pub open spec fn hex_bytes(s: Seq<char>) -> Seq<u8> {
    Seq::new(
        s.len() / 2,
        |i: int| (16 * hex_digit_value(s[2 * i]) + hex_digit_value(s[2 * i + 1])) as u8,
    )
}

/// The SHA-256 digest of a byte string.
pub uninterp spec fn sha256_of(data: Seq<u8>) -> Seq<u8>;

/// The value of `bits` bits read from word `word_pos` on of the ChaCha12
/// stream keyed by `seed`.
pub uninterp spec fn chacha12_uint(seed: Seq<u8>, word_pos: nat, bits: nat) -> nat;

/// The first value below `limit` drawn from a ChaCha12 stream keyed by `seed`.
pub uninterp spec fn chacha12_below(seed: Seq<u8>, limit: nat) -> nat;

/// A seed depends on the signature's bytes alone: two hexadecimal signatures
/// that spell the same bytes, in whatever case, give the same seed.
pub proof fn lemma_seed_deterministic(s1: Seq<char>, s2: Seq<char>)
    requires
        is_hex(s1),
        is_hex(s2),
        hex_bytes(s1) == hex_bytes(s2),
    ensures
        sha256_of(hex_bytes(s1)) == sha256_of(hex_bytes(s2)),
{
}

/// Draws are reproducible: the same seed and width give the same value.
pub proof fn lemma_draw_reproducible(seed: Seq<u8>, other: Seq<u8>, word_pos: nat, bits: nat)
    requires
        seed == other,
    ensures
        chacha12_uint(seed, word_pos, bits) == chacha12_uint(other, word_pos, bits),
{
}

/// Relies on `hex::decode`: it accepts exactly an even number of hex digits
/// and reads each pair as one byte, high digit first.
#[verifier::external_body]
fn decode_hex(s: &str) -> (r: Result<Vec<u8>, hex::FromHexError>)
    ensures
        r is Ok <==> is_hex(s@),
        r matches Ok(b) ==> b@ == hex_bytes(s@),
{
    hex::decode(s)
}

/// Relies on `sha2::Sha256::digest`: the 32-byte digest of `data`.
#[verifier::external_body]
fn sha256(data: &Vec<u8>) -> (r: [u8; 32])
    ensures
        r@ == sha256_of(data@),
{
    let digest = Sha256::digest(data);
    let mut out = [0u8; 32];
    out.copy_from_slice(&digest);
    out
}

/// Relies on `rand_chacha::ChaCha12Rng::from_seed` and `set_word_pos`, and
/// `num_bigint`'s `RandBigInt::gen_biguint`: the `bits`-bit value read from
/// word `word_pos` on of the stream keyed by `seed`, below `2^bits`.
#[verifier::external_body]
fn seeded_uint(seed: &[u8; 32], word_pos: u128, bits: u64) -> (r: BigNat)
    ensures
        r@ == chacha12_uint(seed@, word_pos as nat, bits as nat),
        r@ < pow2(bits as nat),
{
    let mut rng = ChaCha12Rng::from_seed(*seed);
    rng.set_word_pos(word_pos);
    BigNat::from_digits(rng.gen_biguint(bits).to_u32_digits())
}

/// Relies on `rand_chacha::ChaCha12Rng::from_seed` and `rand`'s
/// `Rng::gen_range`: the first value in `[0, limit)` drawn from the stream
/// keyed by `seed`; `gen_range` panics on an empty range.
#[verifier::external_body]
fn seeded_below(seed: &[u8; 32], limit: u64) -> (r: u64)
    requires
        limit > 0,
    ensures
        r == chacha12_below(seed@, limit as nat),
        r < limit,
{
    let mut rng = ChaCha12Rng::from_seed(*seed);
    rng.gen_range(0..limit)
}

/// The seed of a signature given in hexadecimal: the SHA-256 digest of its
/// bytes. Fails with `Decode` where the text is not an even number of hex
/// digits. No particular length is asked for: beacon chains sign with keys
/// of different sizes, so any whole number of bytes is accepted, none
/// included.
pub fn derive_seed(signature: &str) -> (r: Result<[u8; 32], BeaconError>)
    ensures
        r is Ok <==> is_hex(signature@),
        r matches Ok(seed) ==> seed@ == sha256_of(hex_bytes(signature@)),
        r matches Err(e) ==> e == BeaconError::Decode,
{
    match decode_hex(signature) {
        Ok(bytes) => Ok(sha256(&bytes)),
        Err(_) => Err(BeaconError::Decode),
    }
}

/// A uniformly drawn value of `bits` bits from the stream keyed by `seed`;
/// the same seed and width always give the same value.
pub fn next_uint(seed: &[u8; 32], bits: u64) -> (r: BigNat)
    ensures
        r@ == chacha12_uint(seed@, 0, bits as nat),
        r@ < pow2(bits as nat),
{
    seeded_uint(seed, 0, bits)
}

/// A value drawn without bias from `[0, limit)` by the stream keyed by
/// `seed`; the same seed and limit always give the same value.
pub fn next_bounded(seed: &[u8; 32], limit: u64) -> (r: u64)
    requires
        limit > 0,
    ensures
        r == chacha12_below(seed@, limit as nat),
        r < limit,
{
    seeded_below(seed, limit)
}

/// The words of the stream that a draw of `bits` bits reads: one for each
/// 32 bits or part of them.
pub open spec fn words_for(bits: nat) -> nat {
    (bits + 31) / 32
}

/// The stream's period, in words: its word offset counts modulo this.
pub open spec fn stream_period() -> nat {
    0x10_0000_0000_0000_0000
}

/// A ChaCha12 stream keyed by a seed, read in order: each draw starts at the
/// word where the one before it ended.
pub struct RandomStream {
    seed: [u8; 32],
    word_pos: u128,
}

impl View for RandomStream {
    /// The seed and the offset, in words, of the next draw.
    type V = (Seq<u8>, nat);

    closed spec fn view(&self) -> (Seq<u8>, nat) {
        (self.seed@, self.word_pos as nat)
    }
}

impl RandomStream {
    /// The stream keyed by `seed`, at its start.
    pub fn seeded(seed: [u8; 32]) -> (s: RandomStream)
        ensures
            s@ == (seed@, 0nat),
    {
        RandomStream { seed, word_pos: 0 }
    }

    /// The next `bits`-bit value of the stream, uniform in `[0, 2^bits)`.
    pub fn next_uint(&mut self, bits: u64) -> (r: BigNat)
        requires
            old(self)@.1 + words_for(bits as nat) < stream_period(),
        ensures
            r@ == chacha12_uint(old(self)@.0, old(self)@.1, bits as nat),
            r@ < pow2(bits as nat),
            final(self)@ == (old(self)@.0, old(self)@.1 + words_for(bits as nat)),
    {
        let r = seeded_uint(&self.seed, self.word_pos, bits);
        let words: u128 = (bits / 32) as u128 + if bits % 32 > 0 {
            1u128
        } else {
            0u128
        };
        self.word_pos = self.word_pos + words;
        r
    }
}

/// The width, in bits, of the random values drawn from a beacon round.
pub const RANDOM_BITS: u64 = 2048;

/// The random value of a beacon round: `RANDOM_BITS` bits drawn from the
/// stream keyed by the seed of its signature.
pub fn random(record: &BeaconRecord) -> (r: Result<BigNat, BeaconError>)
    ensures
        r is Ok <==> is_hex(record.signature@),
        r matches Ok(v) ==> v@ == chacha12_uint(sha256_of(hex_bytes(record.signature@)), 0, 2048)
            && v@ < pow2(2048),
        r matches Err(e) ==> e == BeaconError::Decode,
{
    let seed = derive_seed(record.signature.as_str())?;
    Ok(next_uint(&seed, RANDOM_BITS))
}

} // verus!
