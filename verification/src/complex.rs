//! Complex numbers over a scalar type.

use vstd::prelude::*;
use crate::fixed::{from_count_is_exact, product_is_odd, results_are_numbers, Fixed};
use crate::scalar::Scalar;

verus! {

/// A point of the complex plane, given by its real and imaginary parts.
#[derive(Debug)]
pub struct Complex<T> {
    pub re: T,
    pub im: T,
}

impl<T: Scalar> Complex<T> {
    /// The square of `self`: real part `re * re - im * im`, imaginary part
    /// `(2 * re) * im`.
    pub open spec fn spec_sqr(self) -> Complex<T> {
        Complex {
            re: self.re.spec_times(self.re).spec_minus(self.im.spec_times(self.im)),
            im: T::spec_from_count(2).spec_times(self.re).spec_times(self.im),
        }
    }

    /// The componentwise sum of `self` and `other`.
    pub open spec fn spec_add(self, other: Complex<T>) -> Complex<T> {
        Complex { re: self.re.spec_plus(other.re), im: self.im.spec_plus(other.im) }
    }

    /// The squared distance of `self` from the origin: `re * re + im * im`.
    pub open spec fn spec_magnitude_sq(self) -> T {
        self.re.spec_times(self.re).spec_plus(self.im.spec_times(self.im))
    }

    /// The point with the given real and imaginary parts.
    pub fn new(re: T, im: T) -> (c: Complex<T>)
        ensures
            c == (Complex { re, im }),
    {
        Complex { re, im }
    }

    /// Squares `self`.
    pub fn sqr(&self) -> (out: Complex<T>)
        ensures
            out == self.spec_sqr(),
    {
        Complex::new(
            self.re.times(self.re).minus(self.im.times(self.im)),
            T::from_count(2).times(self.re).times(self.im),
        )
    }

    /// Adds `other` to `self`, part by part.
    pub fn add(&self, other: &Complex<T>) -> (out: Complex<T>)
        ensures
            out == self.spec_add(*other),
    {
        Complex::new(self.re.plus(other.re), self.im.plus(other.im))
    }

    /// The squared magnitude of `self`, which saves the square root where
    /// only a comparison is wanted.
    pub fn magnitude_sq(&self) -> (out: T)
        ensures
            out == self.spec_magnitude_sq(),
    {
        self.re.times(self.re).plus(self.im.times(self.im))
    }
}

impl Complex<Fixed> {
    /// Whether both parts of `self` are numbers.
    pub open spec fn is_point(self) -> bool {
        self.re.is_number() && self.im.is_number()
    }

    /// The opposite of `self`: both parts negated.
    pub open spec fn spec_opposite(self) -> Complex<Fixed> {
        Complex { re: self.re.spec_opposite(), im: self.im.spec_opposite() }
    }

    /// The mirror image of `self` in the real axis: the imaginary part
    /// negated.
    pub open spec fn spec_conjugate(self) -> Complex<Fixed> {
        Complex { re: self.re, im: self.im.spec_opposite() }
    }
}

/// In fixed-point arithmetic a point and its opposite have the same square.
pub proof fn square_of_opposite(z: Complex<Fixed>)
    requires
        z.is_point(),
    ensures
        z.spec_opposite().spec_sqr() == z.spec_sqr(),
{
    let two = Fixed::spec_from_count(2);
    let twice = two.spec_times(z.re);
    product_is_odd(z.re, z.re);
    product_is_odd(z.im, z.im);
    from_count_is_exact(2);
    product_is_odd(two, z.re);
    results_are_numbers(two, z.re);
    product_is_odd(twice, z.im);
}

/// In fixed-point arithmetic the square of a mirror image is the mirror
/// image of the square, and both have the same squared magnitude.
pub proof fn square_of_conjugate(z: Complex<Fixed>)
    requires
        z.is_point(),
    ensures
        z.spec_conjugate().spec_sqr() == z.spec_sqr().spec_conjugate(),
        z.spec_conjugate().spec_magnitude_sq() == z.spec_magnitude_sq(),
        z.spec_sqr().is_point(),
{
    let two = Fixed::spec_from_count(2);
    let twice = two.spec_times(z.re);
    product_is_odd(z.im, z.im);
    results_are_numbers(two, z.re);
    product_is_odd(twice, z.im);
    results_are_numbers(twice, z.im);
    results_are_numbers(z.re.spec_times(z.re), z.im.spec_times(z.im));
}

} // verus!
