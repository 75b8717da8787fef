//! Reproducible large random integers and probable primes, derived from the
//! signature of a public randomness beacon's round.
//!
//! - `beacon`: from a signature to a seed, and from a seed to random values.
//! - `bignum`: unsigned integers of any size.
//! - `number_theory`: Euclid's lemma and Fermat's little theorem.
//! - `primality`: the Miller–Rabin test and the search for the next prime.
pub mod beacon;
pub mod bignum;
pub mod number_theory;
pub mod primality;
