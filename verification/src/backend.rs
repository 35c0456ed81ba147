//! What the schemes take from outside: random choices, and approximations of
//! real numbers.

use crate::math::mat_z::MatZ;
use crate::math::rational::{Fraction, Rational};
use vstd::prelude::*;

verus! {

/// The source of the random choices that the schemes make, and of the square
/// roots and logarithms that their parameters need.
///
/// The crate trusts nothing that an implementation returns: every result is
/// checked, reduced to the range it should lie in, or treated as a number like
/// any other. The comments say what a faithful implementation returns.
pub trait Backend {
    /// A number chosen uniformly among `0, ..., bound - 1`.
    fn uniform(&self, bound: u64) -> u64;

    /// A prime chosen uniformly among the primes from `lower` to `upper`.
    fn prime(&self, lower: u64, upper: u64) -> u64;

    /// A point of the lattice that the columns of `basis` span, as a column,
    /// chosen by the discrete Gaussian distribution of width `s` around
    /// `center`, for the security parameter `n`.
    fn lattice_point(&self, basis: &MatZ, n: usize, center: &MatZ, s: &Rational) -> MatZ;

    /// An integer chosen by the discrete Gaussian distribution of width
    /// `width * scale` around zero, for the security parameter `n`, among the
    /// integers that are at most six widths away from zero.
    fn gaussian(&self, n: usize, width: &Fraction, scale: u64) -> i64;

    /// The square root of `x`, rounded up to the precision of a [`Rational`].
    fn sqrt(&self, x: u64) -> Rational;

    /// The logarithm of `x` to the base two, to the precision of a
    /// [`Rational`]: the logarithm itself where `x` is a power of two.
    fn log2(&self, x: u64) -> Rational;
}

} // verus!
