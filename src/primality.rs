//! The Miller–Rabin probable-prime test and the forward search for a prime.
use vstd::prelude::*;
use vstd::arithmetic::power::{pow, lemma_pow_mod_noop, lemma_pow_multiplies};
use vstd::arithmetic::power2::{pow2, lemma_pow2_unfold};
use crate::bignum::BigNat;
use crate::beacon::BeaconError;
use crate::number_theory::{is_prime_number, lemma_fermat, lemma_square_roots_of_one};
use num_bigint::{BigUint, RandBigInt};
use rand_chacha::ChaCha12Rng;

verus! {

/// The odd part of `m`: `m` with every factor of two divided out.
pub open spec fn odd_part(m: nat) -> nat
    decreases m,
{
    if m > 0 && m % 2 == 0 {
        odd_part(m / 2)
    } else {
        m
    }
}

/// How many factors of two `m` holds.
pub open spec fn two_exponent(m: nat) -> nat
    decreases m,
{
    if m > 0 && m % 2 == 0 {
        1 + two_exponent(m / 2)
    } else {
        0
    }
}

/// `a^(d * 2^i) mod n`, where `n - 1 = d * 2^r` with `d` odd.
pub open spec fn square_chain(n: nat, a: nat, i: nat) -> int {
    pow(a as int, odd_part((n - 1) as nat) * pow2(i)) % (n as int)
}

/// Whether the witness `a` proves `n` composite: `a^d` is neither `1` nor
/// `n - 1` modulo `n`, and none of the `r - 1` squarings that follow reaches
/// `n - 1`.
pub open spec fn proves_composite(n: nat, a: nat) -> bool {
    &&& square_chain(n, a, 0) != 1
    &&& square_chain(n, a, 0) != n - 1
    &&& forall|i: nat|
        1 <= i < two_exponent((n - 1) as nat) ==> #[trigger] square_chain(n, a, i) != n - 1
}

/// A witness is valid for `n` where `2 <= a <= n - 2`.
pub open spec fn valid_witness(n: nat, a: nat) -> bool {
    2 <= a && a + 2 <= n
}

/// No valid witness among `ws` proves `n` composite; invalid ones are passed over.
pub open spec fn survives(n: nat, ws: Seq<nat>) -> bool {
    forall|j: int| 0 <= j < ws.len() && valid_witness(n, ws[j]) ==> !proves_composite(n, #[trigger] ws[j])
}

/// The outcome of the test of `n` with the witnesses `ws`.
pub open spec fn passes_test(n: nat, ws: Seq<nat>) -> bool {
    n >= 2 && (n <= 3 || survives(n, ws))
}

/// The fixed witness bases used below 2^64.
pub open spec fn fixed_bases() -> Seq<nat> {
    seq![2, 3, 5, 7, 11, 13, 17, 19, 23, 29, 31, 37]
}

/// The decision of the fixed bases, used for `n <= 2^64 - 1`.
pub open spec fn fixed_base_prime(n: nat) -> bool {
    passes_test(n, fixed_bases())
}

proof fn lemma_halve(m: nat)
    requires
        m > 0,
        m % 2 == 0,
    ensures
        odd_part(m) == odd_part(m / 2),
        two_exponent(m) == 1 + two_exponent(m / 2),
        m == (m / 2) * 2,
{
}

proof fn lemma_odd_fixed(m: nat)
    requires
        m % 2 == 1,
    ensures
        odd_part(m) == m,
        two_exponent(m) == 0,
{
}

/// Writes `n - 1` as `d * 2^r` with `d` odd.
pub fn decompose(n: &BigNat) -> (res: (BigNat, BigNat))
    requires
        n@ >= 2,
    ensures
        res.0@ == odd_part((n@ - 1) as nat),
        res.1@ == two_exponent((n@ - 1) as nat),
        res.0@ % 2 == 1,
        res.0@ * pow2(res.1@) == n@ - 1,
{
    let one = BigNat::from_u64(1);
    let two = BigNat::from_u64(2);
    let mut d = n.sub(&one);
    let mut r = BigNat::from_u64(0);
    proof {
        vstd::arithmetic::power2::lemma2_to64();
    }
    while !d.is_odd()
        invariant
            one@ == 1,
            two@ == 2,
            d@ >= 1,
            odd_part(d@) == odd_part((n@ - 1) as nat),
            r@ + two_exponent(d@) == two_exponent((n@ - 1) as nat),
            d@ * pow2(r@) == n@ - 1,
        decreases d@,
    {
        let ghost d0 = d@;
        let ghost r0 = r@;
        proof {
            lemma_halve(d0);
            lemma_pow2_unfold(r0 + 1);
            assert(d0 * pow2(r0) == (d0 / 2) * pow2(r0 + 1)) by (nonlinear_arith)
                requires
                    d0 == (d0 / 2) * 2,
                    pow2(r0 + 1) == 2 * pow2(r0),
            ;
        }
        d = d.div(&two);
        r = r.add(&one);
    }
    proof {
        lemma_odd_fixed(d@);
    }
    (d, r)
}

proof fn lemma_square_step(n: nat, a: nat, i: nat)
    requires
        n > 0,
    ensures
        pow(square_chain(n, a, i), 2) % (n as int) == square_chain(n, a, i + 1),
{
    let d = odd_part((n - 1) as nat);
    let e = d * pow2(i);
    lemma_pow2_unfold(i + 1);
    assert(d * pow2(i + 1) == e * 2) by (nonlinear_arith)
        requires
            pow2(i + 1) == 2 * pow2(i),
            e == d * pow2(i),
    ;
    lemma_pow_mod_noop(pow(a as int, e), 2, n as int);
    lemma_pow_multiplies(a as int, e, 2);
}

/// One round of the test: whether the witness `a` proves `n` composite,
/// given `n - 1 = d * 2^r` with `d` odd.
pub fn miller_rabin(a: &BigNat, n: &BigNat, d: &BigNat, r: &BigNat) -> (res: bool)
    requires
        n@ >= 2,
        d@ == odd_part((n@ - 1) as nat),
        r@ == two_exponent((n@ - 1) as nat),
    ensures
        res == proves_composite(n@, a@),
{
    let one = BigNat::from_u64(1);
    let two = BigNat::from_u64(2);
    let n_minus_one = n.sub(&one);
    let mut x = a.modpow(d, n);
    proof {
        vstd::arithmetic::power2::lemma2_to64();
        assert(d@ * pow2(0) == d@);
        assert(x@ == square_chain(n@, a@, 0));
    }
    if x.equals(&one) || x.equals(&n_minus_one) {
        return false;
    }
    let mut count = one.copy();
    while count.lt(r)
        invariant
            one@ == 1,
            two@ == 2,
            n_minus_one@ == n@ - 1,
            n@ >= 2,
            r@ == two_exponent((n@ - 1) as nat),
            1 <= count@,
            count@ <= r@ || count@ == 1,
            x@ == square_chain(n@, a@, (count@ - 1) as nat),
            square_chain(n@, a@, 0) != 1,
            square_chain(n@, a@, 0) != n@ - 1,
            forall|i: nat| 1 <= i < count@ ==> #[trigger] square_chain(n@, a@, i) != n@ - 1,
        decreases r@ - count@,
    {
        proof {
            lemma_square_step(n@, a@, (count@ - 1) as nat);
        }
        x = x.modpow(&two, n);
        assert(x@ == square_chain(n@, a@, count@));
        if x.equals(&n_minus_one) {
            assert(!proves_composite(n@, a@));
            return false;
        }
        count = count.add(&one);
    }
    true
}

/// The values of a sequence of big numbers.
pub open spec fn values(ws: Seq<BigNat>) -> Seq<nat> {
    ws.map_values(|w: BigNat| w@)
}

/// The largest value of the fixed-base range, `2^64 - 1`.
pub open spec fn fixed_range_max() -> nat {
    0xFFFF_FFFF_FFFF_FFFF
}

/// The test of `n` with the given witnesses; those outside `[2, n - 2]` are
/// passed over.
pub fn is_prime_with(n: &BigNat, witnesses: &Vec<BigNat>) -> (res: bool)
    ensures
        res == passes_test(n@, values(witnesses@)),
{
    let one = BigNat::from_u64(1);
    let two = BigNat::from_u64(2);
    let three = BigNat::from_u64(3);
    if !one.lt(n) {
        return false;
    }
    if !three.lt(n) {
        return true;
    }
    let (d, r) = decompose(n);
    let n_minus_one = n.sub(&one);
    let ghost ws = values(witnesses@);
    let mut j: usize = 0;
    while j < witnesses.len()
        invariant
            two@ == 2,
            n@ > 3,
            n_minus_one@ == n@ - 1,
            d@ == odd_part((n@ - 1) as nat),
            r@ == two_exponent((n@ - 1) as nat),
            ws == values(witnesses@),
            j <= witnesses.len(),
            forall|jj: int|
                0 <= jj < j && valid_witness(n@, ws[jj]) ==> !proves_composite(n@, #[trigger] ws[jj]),
        decreases witnesses.len() - j,
    {
        let a = &witnesses[j];
        assert(ws[j as int] == a@);
        if !a.lt(&two) && a.lt(&n_minus_one) {
            if miller_rabin(a, n, &d, &r) {
                assert(!survives(n@, ws));
                return false;
            }
        }
        j += 1;
    }
    true
}

/// Relies on `num_bigint`'s `RandBigInt::gen_biguint_range` on a ChaCha12
/// generator: a value in `[lo, hi)`; it panics where `hi <= lo`.
#[verifier::external_body]
fn draw_in_range(rng: &mut ChaCha12Rng, lo: &BigNat, hi: &BigNat) -> (r: BigNat)
    requires
        lo@ < hi@,
    ensures
        lo@ <= r@ < hi@,
{
    let lbound = BigUint::new(lo.digits().clone());
    let ubound = BigUint::new(hi.digits().clone());
    BigNat::from_digits(rng.gen_biguint_range(&lbound, &ubound).to_u32_digits())
}

/// The probable-prime test. Up to `2^64 - 1` it uses the fixed bases, which
/// are known to decide primality exactly there; above, `k` witnesses drawn
/// from `rng` uniformly in `[2, n - 2]`, a probabilistic answer.
pub fn is_prime(n: &BigNat, k: usize, rng: &mut ChaCha12Rng) -> (res: bool)
    ensures
        n@ <= fixed_range_max() ==> res == fixed_base_prime(n@),
        n@ > fixed_range_max() ==> exists|ws: Seq<nat>|
            #![trigger passes_test(n@, ws)]
            ws.len() == k && (forall|j: int| 0 <= j < k ==> valid_witness(n@, #[trigger] ws[j]))
                && res == passes_test(n@, ws),
{
    let limit = BigNat::from_u64(0xFFFF_FFFF_FFFF_FFFF);
    if !limit.lt(n) {
        let bases: Vec<BigNat> = vec![
            BigNat::from_u64(2),
            BigNat::from_u64(3),
            BigNat::from_u64(5),
            BigNat::from_u64(7),
            BigNat::from_u64(11),
            BigNat::from_u64(13),
            BigNat::from_u64(17),
            BigNat::from_u64(19),
            BigNat::from_u64(23),
            BigNat::from_u64(29),
            BigNat::from_u64(31),
            BigNat::from_u64(37),
        ];
        assert(values(bases@) =~= fixed_bases());
        return is_prime_with(n, &bases);
    }
    let one = BigNat::from_u64(1);
    let two = BigNat::from_u64(2);
    let n_minus_one = n.sub(&one);
    let mut ws: Vec<BigNat> = Vec::new();
    while ws.len() < k
        invariant
            two@ == 2,
            n_minus_one@ == n@ - 1,
            n@ > fixed_range_max(),
            ws.len() <= k,
            forall|j: int| 0 <= j < ws.len() ==> valid_witness(n@, #[trigger] values(ws@)[j]),
        decreases k - ws.len(),
    {
        let a = draw_in_range(rng, &two, &n_minus_one);
        let ghost before = ws@;
        ws.push(a);
        assert(values(ws@) =~= values(before).push(a@));
    }
    let res = is_prime_with(n, &ws);
    assert(values(ws@).len() == k);
    res
}

/// Where the search from `n` starts: `n` if it is odd, else `n + 1`.
pub open spec fn search_start(n: nat) -> nat {
    if n % 2 == 1 {
        n
    } else {
        n + 1
    }
}

/// The `j`-th odd number tried by the search from `n`.
pub open spec fn candidate(n: nat, j: nat) -> nat {
    search_start(n) + 2 * j
}

/// The `j`-th candidate fails the fixed-base test where it is at most
/// `2^64 - 1`; above, nothing is claimed of it.
pub open spec fn rejected(n: nat, j: nat) -> bool {
    candidate(n, j) <= fixed_range_max() ==> !fixed_base_prime(candidate(n, j))
}

/// The search passed over its `j`-th candidate: that number is not prime,
/// and where it is at most `2^64 - 1` the fixed-base test rejects it.
pub open spec fn passed_over(n: nat, j: nat) -> bool {
    rejected(n, j) && !is_prime_number(candidate(n, j))
}

/// `p` passes the test with some `k` witnesses, each in `[2, p - 2]`.
pub open spec fn passes_some_draw(p: nat, k: nat) -> bool {
    exists|ws: Seq<nat>|
        #![trigger passes_test(p, ws)]
        ws.len() == k && (forall|j: int| 0 <= j < k ==> valid_witness(p, #[trigger] ws[j]))
            && passes_test(p, ws)
}

/// The first probable prime among the odd numbers from `n` on, trying at most
/// `max_steps` of them in increasing order; `k` is the number of random
/// witnesses above `2^64 - 1`. Every candidate passed over is composite, at
/// any size. Fails with `SearchExhausted` where none of those passes, and
/// then none of them is prime.
pub fn find_next_prime(n: &BigNat, k: usize, max_steps: u64, rng: &mut ChaCha12Rng) -> (res:
    Result<BigNat, BeaconError>)
    ensures
        res matches Ok(p) ==> exists|j: nat|
            #![trigger candidate(n@, j)]
            j < max_steps && p@ == candidate(n@, j) && (p@ <= fixed_range_max()
                ==> fixed_base_prime(p@)) && (p@ > fixed_range_max() ==> passes_some_draw(
                p@,
                k as nat,
            )) && forall|i: nat| i < j ==> #[trigger] passed_over(n@, i),
        res matches Err(e) ==> e == BeaconError::SearchExhausted && forall|i: nat|
            i < max_steps ==> #[trigger] passed_over(n@, i),
{
    let one = BigNat::from_u64(1);
    let two = BigNat::from_u64(2);
    let mut c = if n.is_odd() {
        n.copy()
    } else {
        n.add(&one)
    };
    let mut step: u64 = 0;
    while step < max_steps
        invariant
            two@ == 2,
            step <= max_steps,
            c@ == candidate(n@, step as nat),
            forall|i: nat| i < step ==> #[trigger] passed_over(n@, i),
        decreases max_steps - step,
    {
        if is_prime(&c, k, rng) {
            assert(c@ == candidate(n@, step as nat));
            return Ok(c);
        }
        proof {
            if is_prime_number(c@) {
                if c@ <= fixed_range_max() {
                    lemma_primes_pass(c@, fixed_bases());
                } else {
                    let ws = choose|ws: Seq<nat>|
                        ws.len() == k && (forall|j: int|
                            0 <= j < k ==> valid_witness(c@, #[trigger] ws[j])) && false
                            == passes_test(c@, ws);
                    lemma_primes_pass(c@, ws);
                }
            }
            assert(passed_over(n@, step as nat));
        }
        c = c.add(&two);
        step += 1;
    }
    Err(BeaconError::SearchExhausted)
}

proof fn lemma_odd_part(m: nat)
    requires
        m > 0,
    ensures
        odd_part(m) % 2 == 1,
        odd_part(m) * pow2(two_exponent(m)) == m,
    decreases m,
{
    if m % 2 == 0 {
        lemma_halve(m);
        lemma_odd_part(m / 2);
        lemma_pow2_unfold(two_exponent(m));
        let o = odd_part(m);
        let e = pow2(two_exponent(m / 2));
        assert(o * pow2(two_exponent(m)) == m) by (nonlinear_arith)
            requires
                o * e == m / 2,
                pow2(two_exponent(m)) == 2 * e,
                m % 2 == 0,
        ;
    } else {
        lemma_odd_fixed(m);
        vstd::arithmetic::power2::lemma2_to64();
        assert(m * pow2(0) == m);
    }
}

proof fn lemma_chain_reaches_one(n: nat, a: nat, i: nat)
    requires
        is_prime_number(n),
        valid_witness(n, a),
        i <= two_exponent((n - 1) as nat),
        square_chain(n, a, 0) != n - 1,
        forall|j: nat|
            1 <= j < two_exponent((n - 1) as nat) ==> #[trigger] square_chain(n, a, j) != n - 1,
    ensures
        square_chain(n, a, i) == 1,
    decreases two_exponent((n - 1) as nat) - i,
{
    let r = two_exponent((n - 1) as nat);
    if i == r {
        lemma_odd_part((n - 1) as nat);
        vstd::arithmetic::div_mod::lemma_small_mod(a, n);
        lemma_fermat(n, a);
    } else {
        lemma_chain_reaches_one(n, a, i + 1);
        lemma_square_step(n, a, i);
        let y = square_chain(n, a, i);
        vstd::arithmetic::power::lemma_square_is_pow2(y);
        vstd::arithmetic::power::lemma_pow_positive(a as int, odd_part((n - 1) as nat) * pow2(i));
        vstd::arithmetic::div_mod::lemma_mod_pos_bound(
            pow(a as int, odd_part((n - 1) as nat) * pow2(i)),
            n as int,
        );
        lemma_square_roots_of_one(n, y);
    }
}

/// No valid witness proves a prime composite: the test never rejects a prime.
pub proof fn lemma_prime_has_no_witness(n: nat, a: nat)
    requires
        is_prime_number(n),
        valid_witness(n, a),
    ensures
        !proves_composite(n, a),
{
    if proves_composite(n, a) {
        lemma_chain_reaches_one(n, a, 0);
    }
}

/// A prime passes the test whatever the witnesses.
pub proof fn lemma_primes_pass(n: nat, ws: Seq<nat>)
    requires
        is_prime_number(n),
    ensures
        passes_test(n, ws),
{
    assert forall|j: int| 0 <= j < ws.len() && valid_witness(n, ws[j]) implies !proves_composite(
        n,
        #[trigger] ws[j],
    ) by {
        lemma_prime_has_no_witness(n, ws[j]);
    }
}

/// The prime search passes over no prime: an odd number below 2^64 that it
/// tried and rejected is composite.
pub proof fn lemma_search_skips_no_prime(n: nat, j: nat)
    requires
        rejected(n, j),
        candidate(n, j) <= fixed_range_max(),
    ensures
        !is_prime_number(candidate(n, j)),
{
    if is_prime_number(candidate(n, j)) {
        lemma_primes_pass(candidate(n, j), fixed_bases());
    }
}

} // verus!
