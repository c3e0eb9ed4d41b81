//! The scalar field of a numeric factorization.

use vstd::prelude::*;

verus! {

/// Real-number arithmetic as the numeric factorization needs it: a zero, the
/// ring operations, division, a square root and a strict positivity test.
///
/// Implementors supply ordinary real arithmetic — typically a
/// floating-point type wrapped outside this library. Each executable
/// operation is paired with a specification function and promises to return
/// exactly that function of its arguments: the library assumes nothing about
/// what the arithmetic computes, only that it is a deterministic function of
/// the operand values. On that assumption the numeric factorization's
/// contracts pin its results exactly; the arithmetic itself is the
/// implementor's, checked by this crate's tests against double precision.
pub trait Real: Sized {
    /// The value of the additive identity.
    spec fn zero_spec() -> Self;

    /// The value of the additive inverse of `self`.
    spec fn neg_spec(&self) -> Self;

    /// The value of the sum of `self` and `other`.
    spec fn add_spec(&self, other: &Self) -> Self;

    /// The value of the product of `self` and `other`.
    spec fn mul_spec(&self, other: &Self) -> Self;

    /// The value of the quotient of `self` by `other`.
    spec fn div_spec(&self, other: &Self) -> Self;

    /// The value of the square root of `self`.
    spec fn sqrt_spec(&self) -> Self;

    /// Whether `self` counts as strictly positive.
    spec fn is_positive_spec(&self) -> bool;

    /// The additive identity.
    fn zero() -> (r: Self)
        ensures
            r == Self::zero_spec(),
    ;

    /// An exact copy of `self`.
    fn copy_value(&self) -> (r: Self)
        ensures
            r == *self,
    ;

    /// The additive inverse of `self`.
    fn neg(&self) -> (r: Self)
        ensures
            r == self.neg_spec(),
    ;

    /// The sum of `self` and `other`.
    fn add(&self, other: &Self) -> (r: Self)
        ensures
            r == self.add_spec(other),
    ;

    /// The product of `self` and `other`.
    fn mul(&self, other: &Self) -> (r: Self)
        ensures
            r == self.mul_spec(other),
    ;

    /// The quotient of `self` by `other`.
    fn div(&self, other: &Self) -> (r: Self)
        ensures
            r == self.div_spec(other),
    ;

    /// The square root of `self`.
    fn sqrt(&self) -> (r: Self)
        ensures
            r == self.sqrt_spec(),
    ;

    /// Whether `self` is strictly greater than zero.
    fn is_positive(&self) -> (r: bool)
        ensures
            r == self.is_positive_spec(),
    ;
}

} // verus!
