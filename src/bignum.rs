//! Arbitrary-precision unsigned integers, held as base 2^32 digits, least
//! significant first. Arithmetic is done by `num_bigint`; what each operation
//! returns is stated over the digits' value.
use vstd::prelude::*;
use vstd::arithmetic::power::pow;
use num_bigint::BigUint;

verus! {

/// The value of a little-endian sequence of base 2^32 digits.
pub open spec fn digits_value(s: Seq<u32>) -> nat
    decreases s.len(),
{
    if s.len() == 0 {
        0
    } else {
        s[0] as nat + 0x1_0000_0000 * digits_value(s.drop_first())
    }
}

/// A non-negative integer of any size.
#[derive(Clone, Debug)]
pub struct BigNat {
    digits: Vec<u32>,
}

impl View for BigNat {
    type V = nat;

    closed spec fn view(&self) -> nat {
        digits_value(self.digits@)
    }
}

impl BigNat {
    /// Builds a value from base 2^32 digits, least significant first.
    pub fn from_digits(digits: Vec<u32>) -> (r: BigNat)
        ensures
            r@ == digits_value(digits@),
    {
        BigNat { digits }
    }

    /// The base 2^32 digits, least significant first.
    pub fn digits(&self) -> (r: &Vec<u32>)
        ensures
            digits_value(r@) == self@,
    {
        &self.digits
    }

    /// A value equal to this one.
    pub fn copy(&self) -> (r: BigNat)
        ensures
            r@ == self@,
    {
        BigNat { digits: self.digits.clone() }
    }

    pub fn from_u64(v: u64) -> (r: BigNat)
        ensures
            r@ == v as nat,
    {
        let lo: u32 = (v % 0x1_0000_0000) as u32;
        let hi: u32 = (v / 0x1_0000_0000) as u32;
        let digits: Vec<u32> = vec![lo, hi];
        proof {
            reveal_with_fuel(digits_value, 3);
            assert(digits@.drop_first().drop_first().len() == 0);
            assert(v as nat == lo as nat + 0x1_0000_0000 * (hi as nat));
        }
        BigNat { digits }
    }

    /// Relies on `num_bigint`'s `BigUint + BigUint`: the exact sum.
    #[verifier::external_body]
    pub(crate) fn add(&self, o: &BigNat) -> (r: BigNat)
        ensures
            r@ == self@ + o@,
    {
        let s = BigUint::new(self.digits.clone()) + BigUint::new(o.digits.clone());
        BigNat { digits: s.to_u32_digits() }
    }

    /// Relies on `num_bigint`'s `BigUint - BigUint`: the exact difference; it
    /// panics where it would be negative.
    #[verifier::external_body]
    pub(crate) fn sub(&self, o: &BigNat) -> (r: BigNat)
        requires
            o@ <= self@,
        ensures
            r@ == self@ - o@,
    {
        let s = BigUint::new(self.digits.clone()) - BigUint::new(o.digits.clone());
        BigNat { digits: s.to_u32_digits() }
    }

    /// Relies on `num_bigint`'s `BigUint / BigUint`: the floor quotient; it
    /// panics on a zero divisor.
    #[verifier::external_body]
    pub(crate) fn div(&self, o: &BigNat) -> (r: BigNat)
        requires
            o@ > 0,
        ensures
            r@ == self@ / o@,
    {
        let q = BigUint::new(self.digits.clone()) / BigUint::new(o.digits.clone());
        BigNat { digits: q.to_u32_digits() }
    }

    /// Relies on `num_bigint`'s `BigUint % BigUint`: the remainder; it panics
    /// on a zero divisor.
    #[verifier::external_body]
    pub(crate) fn rem(&self, o: &BigNat) -> (r: BigNat)
        requires
            o@ > 0,
        ensures
            r@ == self@ % o@,
    {
        let m = BigUint::new(self.digits.clone()) % BigUint::new(o.digits.clone());
        BigNat { digits: m.to_u32_digits() }
    }

    /// Relies on `num_bigint`'s `BigUint::modpow`: `(self ^ e) % m`; it panics
    /// on a zero modulus.
    #[verifier::external_body]
    pub(crate) fn modpow(&self, e: &BigNat, m: &BigNat) -> (r: BigNat)
        requires
            m@ > 0,
        ensures
            r@ == pow(self@ as int, e@) % (m@ as int),
    {
        let b = BigUint::new(self.digits.clone());
        let p = b.modpow(&BigUint::new(e.digits.clone()), &BigUint::new(m.digits.clone()));
        BigNat { digits: p.to_u32_digits() }
    }

    /// Relies on `num_bigint`'s `<` on `BigUint`: the order of the values.
    #[verifier::external_body]
    pub(crate) fn lt(&self, o: &BigNat) -> (r: bool)
        ensures
            r == (self@ < o@),
    {
        BigUint::new(self.digits.clone()) < BigUint::new(o.digits.clone())
    }

    /// Relies on `num_bigint`'s `==` on `BigUint`: equality of the values.
    #[verifier::external_body]
    pub(crate) fn equals(&self, o: &BigNat) -> (r: bool)
        ensures
            r == (self@ == o@),
    {
        BigUint::new(self.digits.clone()) == BigUint::new(o.digits.clone())
    }

    /// Whether the value is odd.
    pub fn is_odd(&self) -> (r: bool)
        ensures
            r == (self@ % 2 == 1),
    {
        let two = BigNat::from_u64(2);
        let one = BigNat::from_u64(1);
        self.rem(&two).equals(&one)
    }
}

} // verus!
