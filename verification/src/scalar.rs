//! The arithmetic that the renderer asks of a number type.

use vstd::prelude::*;

verus! {

/// A number type with the operations used by the escape-time iteration and
/// by the pixel mapping.
///
/// Each operation is tied to a specification function of the same
/// arguments, so an operation applied twice to equal arguments gives equal
/// results. Nothing else is asked of an implementation: no algebraic law is
/// assumed, which leaves room for rounding and saturating arithmetic.
pub trait Scalar: Sized + Copy {
    /// The number that stands for the unsigned integer `n`.
    spec fn spec_from_count(n: u32) -> Self;

    /// The sum of `self` and `rhs`.
    spec fn spec_plus(self, rhs: Self) -> Self;

    /// The difference of `self` and `rhs`.
    spec fn spec_minus(self, rhs: Self) -> Self;

    /// The product of `self` and `rhs`.
    spec fn spec_times(self, rhs: Self) -> Self;

    /// The quotient of `self` by `rhs`.
    spec fn spec_over(self, rhs: Self) -> Self;

    /// Whether `self` is strictly greater than `rhs`.
    spec fn spec_exceeds(self, rhs: Self) -> bool;

    /// Converts a count, such as a pixel coordinate, to a number.
    fn from_count(n: u32) -> (r: Self)
        ensures
            r == Self::spec_from_count(n),
    ;

    /// Adds `rhs` to `self`.
    fn plus(self, rhs: Self) -> (r: Self)
        ensures
            r == self.spec_plus(rhs),
    ;

    /// Subtracts `rhs` from `self`.
    fn minus(self, rhs: Self) -> (r: Self)
        ensures
            r == self.spec_minus(rhs),
    ;

    /// Multiplies `self` by `rhs`.
    fn times(self, rhs: Self) -> (r: Self)
        ensures
            r == self.spec_times(rhs),
    ;

    /// Divides `self` by `rhs`. The operation is defined for every divisor,
    /// zero included.
    fn over(self, rhs: Self) -> (r: Self)
        ensures
            r == self.spec_over(rhs),
    ;

    /// Tests whether `self` is strictly greater than `rhs`.
    fn exceeds(self, rhs: Self) -> (b: bool)
        ensures
            b == self.spec_exceeds(rhs),
    ;
}

/// Whether zero absorbs in `T`: zero over every positive count is zero,
/// and zero times every value is zero.
pub open spec fn zero_absorbs<T: Scalar>() -> bool {
    &&& forall|size: u32|
        size > 0 ==> T::spec_from_count(0).spec_over(#[trigger] T::spec_from_count(size))
            == T::spec_from_count(0)
    &&& forall|a: T| #[trigger] T::spec_from_count(0).spec_times(a) == T::spec_from_count(0)
}

/// Whether adding zero to `a` gives `a`.
pub open spec fn keeps_under_zero<T: Scalar>(a: T) -> bool {
    a.spec_plus(T::spec_from_count(0)) == a
}

} // verus!
