//! Facts about primes that the Miller–Rabin test rests on: Euclid's lemma,
//! the square roots of one modulo a prime, and Fermat's little theorem.
use vstd::prelude::*;
use vstd::arithmetic::power::pow;
use vstd::set_lib::{lemma_int_range, lemma_len_subset, set_int_range};
use vstd::arithmetic::div_mod::{
    lemma_fundamental_div_mod, lemma_mod_multiples_basic, lemma_mul_mod_noop_left, lemma_small_mod,
};

verus! {

/// `n` is prime: at least two, with no divisor strictly between one and itself.
pub open spec fn is_prime_number(n: nat) -> bool {
    n >= 2 && forall|f: nat| 2 <= f < n ==> #[trigger] (n % f) != 0
}

proof fn lemma_euclid_small(p: nat, a: nat, b: int)
    requires
        is_prime_number(p),
        0 < a < p,
        (a * b) % (p as int) == 0,
    ensures
        b % (p as int) == 0,
    decreases a,
{
    if a > 1 {
        assert(p % a != 0);
        let s = p % a;
        let q = p / a;
        lemma_fundamental_div_mod(p as int, a as int);
        let t = (a * b) / (p as int);
        lemma_fundamental_div_mod(a * b, p as int);
        assert(s * b == (b - q * t) * p) by (nonlinear_arith)
            requires
                p == a * q + s,
                a * b == p * t,
        ;
        lemma_mod_multiples_basic(b - q * t, p as int);
        lemma_euclid_small(p, s, b);
    } else {
        assert(a * b == b) by (nonlinear_arith)
            requires
                a == 1,
        ;
    }
}

/// Euclid's lemma: a prime that divides a product divides one of its factors.
pub proof fn lemma_euclid(p: nat, x: int, y: int)
    requires
        is_prime_number(p),
        x % (p as int) != 0,
        (x * y) % (p as int) == 0,
    ensures
        y % (p as int) == 0,
{
    lemma_mul_mod_noop_left(x, y, p as int);
    lemma_euclid_small(p, (x % (p as int)) as nat, y);
}

/// Values with the same remainder differ by a multiple of the modulus.
pub proof fn lemma_same_mod_difference(x: int, y: int, m: nat)
    requires
        m > 0,
        x % (m as int) == y % (m as int),
    ensures
        (x - y) % (m as int) == 0,
{
    lemma_fundamental_div_mod(x, m as int);
    lemma_fundamental_div_mod(y, m as int);
    let k = x / (m as int) - y / (m as int);
    assert(x - y == k * m) by (nonlinear_arith)
        requires
            x == m * (x / (m as int)) + x % (m as int),
            y == m * (y / (m as int)) + y % (m as int),
            x % (m as int) == y % (m as int),
            k == x / (m as int) - y / (m as int),
    ;
    lemma_mod_multiples_basic(k, m as int);
}

/// Modulo a prime, one has no square roots but `1` and `-1`.
pub proof fn lemma_square_roots_of_one(p: nat, x: int)
    requires
        is_prime_number(p),
        0 <= x < p,
        (x * x) % (p as int) == 1,
    ensures
        x == 1 || x == p - 1,
{
    if x != 1 {
        assert(x != 0) by {
            lemma_small_mod(0, p);
        }
        lemma_small_mod(1, p);
        lemma_same_mod_difference(x * x, 1, p);
        assert(x * x - 1 == (x - 1) * (x + 1)) by (nonlinear_arith);
        lemma_small_mod((x - 1) as nat, p);
        lemma_euclid(p, x - 1, x + 1);
        if x + 1 < p {
            lemma_small_mod((x + 1) as nat, p);
        }
    }
}

/// The product of a sequence.
pub open spec fn product(s: Seq<int>) -> int
    decreases s.len(),
{
    if s.len() == 0 {
        1
    } else {
        product(s.drop_last()) * s.last()
    }
}

/// `m!`
pub open spec fn factorial(m: nat) -> int
    decreases m,
{
    if m == 0 {
        1
    } else {
        m * factorial((m - 1) as nat)
    }
}

proof fn lemma_product_concat(a: Seq<int>, b: Seq<int>)
    ensures
        product(a + b) == product(a) * product(b),
    decreases b.len(),
{
    if b.len() == 0 {
        assert(a + b =~= a);
    } else {
        assert((a + b).drop_last() =~= a + b.drop_last());
        lemma_product_concat(a, b.drop_last());
        let pa = product(a);
        let pb = product(b.drop_last());
        assert(pa * pb * b.last() == pa * (pb * b.last())) by (nonlinear_arith);
    }
}

proof fn lemma_product_remove(s: Seq<int>, k: int)
    requires
        0 <= k < s.len(),
    ensures
        product(s) == s[k] * product(s.remove(k)),
{
    let a = s.subrange(0, k);
    let b = s.subrange(k + 1, s.len() as int);
    assert(s =~= a + (seq![s[k]] + b));
    assert(s.remove(k) =~= a + b);
    lemma_product_concat(a, seq![s[k]] + b);
    lemma_product_concat(seq![s[k]], b);
    lemma_product_concat(a, b);
    assert(seq![s[k]].drop_last() =~= Seq::<int>::empty());
    let single = seq![s[k]];
    assert(single.last() == s[k]);
    assert(product(single.drop_last()) == 1);
    assert(product(single) == s[k]);
    let pa = product(a);
    let pb = product(b);
    assert(pa * (s[k] * pb) == s[k] * (pa * pb)) by (nonlinear_arith);
}

/// `m` distinct values, each in `[1, m]`, multiply to `m!`.
proof fn lemma_product_of_permutation(s: Seq<int>, m: nat)
    requires
        s.len() == m,
        s.no_duplicates(),
        forall|i: int| 0 <= i < m ==> 1 <= #[trigger] s[i] <= m,
    ensures
        product(s) == factorial(m),
    decreases m,
{
    if m > 0 {
        if forall|i: int| 0 <= i < m ==> #[trigger] s[i] != m {
            assert(s.to_set().subset_of(set_int_range(1, m as int))) by {
                assert forall|v: int| s.to_set().contains(v) implies set_int_range(1, m as int).contains(v) by {
                    let i = choose|i: int| 0 <= i < s.len() && s[i] == v;
                }
            }
            lemma_int_range(1, m as int);
            s.unique_seq_to_set();
            lemma_len_subset(s.to_set(), set_int_range(1, m as int));
            assert(false);
        }
        let k = choose|k: int| 0 <= k < m && s[k] == m;
        let t = s.remove(k);
        assert forall|i: int, j: int| 0 <= i < t.len() && 0 <= j < t.len() && i != j implies t[i] != t[j] by {
            let si = if i < k { i } else { i + 1 };
            let sj = if j < k { j } else { j + 1 };
            assert(t[i] == s[si] && t[j] == s[sj]);
        }
        assert forall|i: int| 0 <= i < m - 1 implies 1 <= #[trigger] t[i] <= m - 1 by {
            let si = if i < k { i } else { i + 1 };
            assert(t[i] == s[si]);
            assert(si != k);
        }
        lemma_product_of_permutation(t, (m - 1) as nat);
        lemma_product_remove(s, k);
    }
}

/// A prime divides no factorial of a smaller number.
proof fn lemma_factorial_not_divisible(p: nat, m: nat)
    requires
        is_prime_number(p),
        m < p,
    ensures
        factorial(m) % (p as int) != 0,
    decreases m,
{
    if m == 0 {
        lemma_small_mod(1, p);
    } else {
        lemma_factorial_not_divisible(p, (m - 1) as nat);
        lemma_small_mod(m, p);
        if factorial(m) % (p as int) == 0 {
            assert(factorial(m) == factorial((m - 1) as nat) * m) by (nonlinear_arith)
                requires
                    factorial(m) == m * factorial((m - 1) as nat),
            ;
            lemma_euclid(p, factorial((m - 1) as nat), m as int);
        }
    }
}

/// `(a * 1) % p, (a * 2) % p, ..., (a * j) % p`
pub open spec fn multiples_mod(a: int, p: nat, j: nat) -> Seq<int> {
    Seq::new(j, |i: int| (a * (i + 1)) % (p as int))
}

proof fn lemma_multiples_product(a: int, p: nat, j: nat)
    requires
        p > 0,
    ensures
        product(multiples_mod(a, p, j)) % (p as int) == (pow(a, j) * factorial(j)) % (p as int),
    decreases j,
{
    let pm = p as int;
    if j == 0 {
        assert(product(multiples_mod(a, p, 0)) == 1);
        vstd::arithmetic::power::lemma_pow0(a);
    } else {
        let j1 = (j - 1) as nat;
        lemma_multiples_product(a, p, j1);
        assert(multiples_mod(a, p, j).drop_last() =~= multiples_mod(a, p, j1));
        let x = product(multiples_mod(a, p, j1));
        let z = pow(a, j1) * factorial(j1);
        let y = a * j;
        assert(product(multiples_mod(a, p, j)) == x * (y % pm));
        vstd::arithmetic::div_mod::lemma_mul_mod_noop_right(x, y, pm);
        lemma_mul_mod_noop_left(x, y, pm);
        lemma_mul_mod_noop_left(z, y, pm);
        vstd::arithmetic::power::lemma_pow_adds(a, j1, 1);
        vstd::arithmetic::power::lemma_pow1(a);
        assert(z * y == pow(a, j) * factorial(j)) by (nonlinear_arith)
            requires
                z == pow(a, j1) * factorial(j1),
                y == a * j,
                pow(a, j) == pow(a, j1) * pow(a, 1),
                pow(a, 1) == a,
                factorial(j) == j * factorial(j1),
        ;
    }
}

/// Fermat's little theorem: `a^(p-1) = 1 (mod p)` for a prime `p` that does
/// not divide `a`.
pub proof fn lemma_fermat(p: nat, a: nat)
    requires
        is_prime_number(p),
        a % p != 0,
    ensures
        pow(a as int, (p - 1) as nat) % (p as int) == 1,
{
    let pm = p as int;
    let n = (p - 1) as nat;
    let g = multiples_mod(a as int, p, n);
    assert forall|i: int| 0 <= i < n implies 1 <= #[trigger] g[i] <= n by {
        if g[i] == 0 {
            lemma_small_mod((i + 1) as nat, p);
            lemma_euclid(p, a as int, i + 1);
        }
    }
    assert forall|i: int, j: int| 0 <= i < n && 0 <= j < n && i != j implies g[i] != g[j] by {
        if g[i] == g[j] {
            let (lo, hi) = if i < j { (i, j) } else { (j, i) };
            lemma_same_mod_difference(a * (hi + 1), a * (lo + 1), p);
            assert(a * (hi + 1) - a * (lo + 1) == a * (hi - lo)) by (nonlinear_arith);
            lemma_euclid(p, a as int, hi - lo);
            lemma_small_mod((hi - lo) as nat, p);
        }
    }
    lemma_product_of_permutation(g, n);
    lemma_multiples_product(a as int, p, n);
    let f = factorial(n);
    let e = pow(a as int, n);
    assert(a > 0) by {
        lemma_small_mod(0, p);
    }
    vstd::arithmetic::power::lemma_pow_positive(a as int, n);
    lemma_same_mod_difference(e * f, f, p);
    assert(e * f - f == f * (e - 1)) by (nonlinear_arith);
    lemma_factorial_not_divisible(p, n);
    lemma_euclid(p, f, e - 1);
    lemma_fundamental_div_mod(e - 1, pm);
    lemma_fundamental_div_mod(e, pm);
    lemma_small_mod(1, p);
    vstd::arithmetic::div_mod::lemma_mod_multiples_vanish((e - 1) / pm, 1, pm);
}

} // verus!
