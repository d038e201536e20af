//! The escape-time iteration `z -> z * z + c`, started at the origin.

use vstd::prelude::*;
use crate::complex::{square_of_conjugate, Complex};
use crate::fixed::{lemma_raw_round_trip, results_are_numbers, sum_is_odd, Fixed};
use crate::scalar::Scalar;

verus! {

/// The point from which every orbit starts.
pub open spec fn origin<T: Scalar>() -> Complex<T> {
    Complex { re: T::spec_from_count(0), im: T::spec_from_count(0) }
}

/// The `i`-th point of the orbit of `c`.
pub open spec fn orbit<T: Scalar>(c: Complex<T>, i: nat) -> Complex<T>
    decreases i,
{
    if i == 0 {
        origin()
    } else {
        orbit(c, (i - 1) as nat).spec_sqr().spec_add(c)
    }
}

/// Whether the `i`-th point of the orbit of `c` lies outside the circle of
/// radius two, that is, whether its squared magnitude exceeds four.
pub open spec fn escaped<T: Scalar>(c: Complex<T>, i: nat) -> bool {
    orbit(c, i).spec_magnitude_sq().spec_exceeds(T::spec_from_count(4))
}

/// The least index from `from` on, below `max_iters`, at which the orbit of
/// `c` has escaped, or `max_iters` where there is none.
pub open spec fn first_escape<T: Scalar>(c: Complex<T>, from: nat, max_iters: nat) -> nat
    decreases max_iters - from,
{
    if from >= max_iters {
        max_iters
    } else if escaped(c, from) {
        from
    } else {
        first_escape(c, from + 1, max_iters)
    }
}

/// The escape count of `c` under the cap `max_iters`.
pub open spec fn escape_count<T: Scalar>(c: Complex<T>, max_iters: nat) -> nat {
    first_escape(c, 0, max_iters)
}

/// Counts the steps until the orbit of `c` leaves the circle of radius two,
/// giving up at `max_iters`: the result is the first index below the cap at
/// which the orbit has escaped, or the cap where there is none.
pub fn mandelbrot_iter<T: Scalar>(c: &Complex<T>, max_iters: u32) -> (count: u32)
    ensures
        count == escape_count(*c, max_iters as nat),
        count <= max_iters,
        forall|i: nat| i < count ==> !#[trigger] escaped(*c, i),
        count < max_iters ==> escaped(*c, count as nat),
{
    let limit = T::from_count(4);
    let mut z = Complex::new(T::from_count(0), T::from_count(0));
    let mut i: u32 = 0;
    while i < max_iters
        invariant
            i <= max_iters,
            limit == T::spec_from_count(4),
            z == orbit(*c, i as nat),
            first_escape(*c, i as nat, max_iters as nat) == escape_count(*c, max_iters as nat),
        decreases max_iters - i,
    {
        if z.magnitude_sq().exceeds(limit) {
            proof {
                escape_count_is_first_escape(*c, max_iters as nat);
            }
            return i;
        }
        z = z.sqr().add(c);
        i += 1;
    }
    proof {
        escape_count_is_first_escape(*c, max_iters as nat);
    }
    max_iters
}

/// The search for an escape from `from` on ends between `from` and the cap.
pub proof fn lemma_first_escape_bounds<T: Scalar>(c: Complex<T>, from: nat, max_iters: nat)
    requires
        from <= max_iters,
    ensures
        from <= first_escape(c, from, max_iters) <= max_iters,
    decreases max_iters - from,
{
    if from < max_iters && !escaped(c, from) {
        lemma_first_escape_bounds(c, from + 1, max_iters);
    }
}

/// Raising the cap changes the outcome of a search only where the search
/// had run into the lower cap: under the lower cap it ends at the outcome
/// under the higher one, or at the lower cap, whichever comes first.
pub proof fn lemma_first_escape_under_lower_cap<T: Scalar>(
    c: Complex<T>,
    from: nat,
    low: nat,
    high: nat,
)
    requires
        from <= low <= high,
    ensures
        first_escape(c, from, low) == if first_escape(c, from, high) < low {
            first_escape(c, from, high)
        } else {
            low
        },
    decreases low - from,
{
    lemma_first_escape_bounds(c, from, high);
    if from < low && !escaped(c, from) {
        lemma_first_escape_under_lower_cap(c, from + 1, low, high);
    }
}

/// An escape count never exceeds its cap.
pub proof fn escape_count_is_bounded<T: Scalar>(c: Complex<T>, max_iters: nat)
    ensures
        escape_count(c, max_iters) <= max_iters,
{
    lemma_first_escape_bounds(c, 0, max_iters);
}

/// For a fixed point the escape count does not decrease as the cap grows;
/// more exactly, the count under the lower cap is the count under the
/// higher cap, held at the lower cap.
pub proof fn escape_count_is_monotone<T: Scalar>(c: Complex<T>, low: nat, high: nat)
    requires
        low <= high,
    ensures
        escape_count(c, low) <= escape_count(c, high),
        escape_count(c, low) == if escape_count(c, high) < low {
            escape_count(c, high)
        } else {
            low
        },
{
    lemma_first_escape_under_lower_cap(c, 0, low, high);
}

/// An escape count is the first index below the cap at which the orbit has
/// escaped: the orbit has not escaped at any earlier index, and where the
/// count is below the cap the orbit has escaped at the count.
pub proof fn escape_count_is_first_escape<T: Scalar>(c: Complex<T>, max_iters: nat)
    ensures
        forall|i: nat| i < escape_count(c, max_iters) ==> !#[trigger] escaped(c, i),
        escape_count(c, max_iters) < max_iters ==> escaped(c, escape_count(c, max_iters)),
{
    lemma_first_escape_is_first(c, 0, max_iters);
}

/// A search from `from` on passes only indices at which the orbit has not
/// escaped, and ends below the cap only at an index at which it has.
pub proof fn lemma_first_escape_is_first<T: Scalar>(c: Complex<T>, from: nat, max_iters: nat)
    requires
        from <= max_iters,
    ensures
        forall|i: nat| from <= i < first_escape(c, from, max_iters) ==> !#[trigger] escaped(c, i),
        first_escape(c, from, max_iters) < max_iters ==> escaped(
            c,
            first_escape(c, from, max_iters),
        ),
    decreases max_iters - from,
{
    if from < max_iters && !escaped(c, from) {
        lemma_first_escape_is_first(c, from + 1, max_iters);
    }
}

/// Whether the origin is a fixed point of the step `z -> z * z + c` for
/// `c` the origin, and lies within the circle of radius two.
pub open spec fn origin_is_stationary<T: Scalar>() -> bool {
    &&& origin::<T>().spec_sqr().spec_add(origin::<T>()) == origin::<T>()
    &&& !origin::<T>().spec_magnitude_sq().spec_exceeds(T::spec_from_count(4))
}

/// Where the origin is stationary, its orbit stays at the origin.
pub proof fn lemma_orbit_of_origin<T: Scalar>(i: nat)
    requires
        origin_is_stationary::<T>(),
    ensures
        orbit(origin::<T>(), i) == origin::<T>(),
    decreases i,
{
    if i > 0 {
        lemma_orbit_of_origin::<T>((i - 1) as nat);
    }
}

/// In every arithmetic in which the origin is stationary, the origin never
/// escapes: its escape count is the cap, whatever the cap.
pub proof fn stationary_origin_never_escapes<T: Scalar>(max_iters: nat)
    requires
        origin_is_stationary::<T>(),
    ensures
        escape_count(origin::<T>(), max_iters) == max_iters,
{
    lemma_search_at_origin::<T>(0, max_iters);
}

proof fn lemma_search_at_origin<T: Scalar>(from: nat, max_iters: nat)
    requires
        origin_is_stationary::<T>(),
        from <= max_iters,
    ensures
        first_escape(origin::<T>(), from, max_iters) == max_iters,
    decreases max_iters - from,
{
    if from < max_iters {
        lemma_orbit_of_origin::<T>(from);
        lemma_search_at_origin::<T>(from + 1, max_iters);
    }
}

/// In fixed-point arithmetic the origin is stationary.
pub proof fn fixed_origin_is_stationary()
    ensures
        origin_is_stationary::<Fixed>(),
{
    lemma_raw_round_trip();
    let zero = Fixed::spec_from_count(0);
    let two = Fixed::spec_from_count(2);
    assert(zero@ == 0);
    assert(zero.spec_times(zero) == zero);
    assert(zero.spec_minus(zero) == zero);
    assert(zero.spec_plus(zero) == zero);
    assert(two.spec_times(zero) == zero) by {
        assert(two@ * 0 == 0);
    }
    assert(Fixed::spec_from_count(4)@ > 0);
}

/// The origin never escapes: in fixed-point arithmetic its escape count is
/// the cap, whatever the cap.
pub proof fn origin_never_escapes(max_iters: nat)
    ensures
        escape_count(origin::<Fixed>(), max_iters) == max_iters,
{
    fixed_origin_is_stationary();
    stationary_origin_never_escapes::<Fixed>(max_iters);
}

/// In fixed-point arithmetic the orbit of a mirror image is the mirror
/// image of the orbit.
pub proof fn lemma_orbit_of_conjugate(c: Complex<Fixed>, i: nat)
    requires
        c.is_point(),
    ensures
        orbit(c.spec_conjugate(), i) == orbit(c, i).spec_conjugate(),
        orbit(c, i).is_point(),
        escaped(c.spec_conjugate(), i) == escaped(c, i),
    decreases i,
{
    lemma_raw_round_trip();
    if i == 0 {
        assert(origin::<Fixed>().spec_conjugate() == origin::<Fixed>());
    } else {
        let z = orbit(c, (i - 1) as nat);
        lemma_orbit_of_conjugate(c, (i - 1) as nat);
        square_of_conjugate(z);
        let s = z.spec_sqr();
        sum_is_odd(s.im, c.im);
        results_are_numbers(s.re, c.re);
        results_are_numbers(s.im, c.im);
    }
    square_of_conjugate(orbit(c, i));
}

/// The picture is symmetric about the real axis: in fixed-point arithmetic
/// a point and its mirror image have the same escape count.
pub proof fn escape_count_is_mirror_symmetric(c: Complex<Fixed>, max_iters: nat)
    requires
        c.is_point(),
    ensures
        escape_count(c.spec_conjugate(), max_iters) == escape_count(c, max_iters),
{
    lemma_search_of_conjugate(c, 0, max_iters);
}

proof fn lemma_search_of_conjugate(c: Complex<Fixed>, from: nat, max_iters: nat)
    requires
        c.is_point(),
    ensures
        first_escape(c.spec_conjugate(), from, max_iters) == first_escape(c, from, max_iters),
    decreases max_iters - from,
{
    if from < max_iters {
        lemma_orbit_of_conjugate(c, from);
        lemma_search_of_conjugate(c, from + 1, max_iters);
    }
}

} // verus!
