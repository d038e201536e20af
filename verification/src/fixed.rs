//! Saturating fixed-point numbers with 31 fractional bits.

use vstd::prelude::*;
use crate::scalar::{keeps_under_zero, zero_absorbs, Scalar};

verus! {

/// The raw value of the number one: two to the power 31.
pub const ONE_RAW: i64 = 0x8000_0000;

/// A fixed-point number: its raw value counts units of one over two to the
/// power 31.
///
/// Raw values run from `-i64::MAX` to `i64::MAX`, so the opposite of every
/// number is a number, and every unsigned 32-bit count is a number.
/// Arithmetic rounds toward zero and saturates at the two ends of that
/// range, so every operation is defined on every pair of numbers, and
/// negating an argument of a sum, product or quotient negates the result or
/// leaves it unchanged, as it does for exact numbers.
#[derive(Clone, Copy, Debug, PartialEq, Eq, Structural)]
pub struct Fixed {
    raw: i64,
}

impl View for Fixed {
    type V = i64;

    /// The raw value.
    closed spec fn view(&self) -> i64 {
        self.raw
    }
}

/// The value whose raw field holds `raw`.
pub closed spec fn of_raw(raw: i64) -> Fixed {
    Fixed { raw }
}

/// A value is its raw value and nothing more.
pub proof fn lemma_raw_round_trip()
    ensures
        forall|raw: i64| #[trigger] of_raw(raw)@ == raw,
        forall|a: Fixed| #[trigger] of_raw(a@) == a,
{
}

/// The absolute value of `a`.
pub open spec fn magnitude(a: int) -> int {
    if a < 0 {
        -a
    } else {
        a
    }
}

/// The nearest value to `v` that is the raw value of a number.
pub open spec fn saturate(v: int) -> int {
    if v < -i64::MAX {
        -i64::MAX
    } else if v > i64::MAX {
        i64::MAX as int
    } else {
        v
    }
}

/// The quotient of `a` by a nonzero `b`, rounded toward zero.
pub open spec fn quotient_toward_zero(a: int, b: int) -> int {
    if (a < 0) == (b < 0) {
        magnitude(a) / magnitude(b)
    } else {
        -(magnitude(a) / magnitude(b))
    }
}

/// The raw value of the product of the numbers with raw values `a` and `b`.
pub open spec fn product_raw(a: int, b: int) -> int {
    saturate(quotient_toward_zero(a * b, ONE_RAW as int))
}

/// The raw value of the quotient of the numbers with raw values `a` and `b`.
/// A nonzero number over zero saturates by its sign, and zero over zero is
/// zero.
pub open spec fn quotient_raw(a: int, b: int) -> int {
    if b != 0 {
        saturate(quotient_toward_zero(a * ONE_RAW, b))
    } else if a > 0 {
        i64::MAX as int
    } else if a < 0 {
        -i64::MAX
    } else {
        0
    }
}

/// Brings `v` into the range of raw values.
fn clamp(v: i128) -> (r: i64)
    ensures
        r == saturate(v as int),
{
    if v < -(i64::MAX as i128) {
        -i64::MAX
    } else if v > i64::MAX as i128 {
        i64::MAX
    } else {
        v as i64
    }
}

/// The quotient of `a` by `b` rounded toward zero, computed on magnitudes.
fn divide_toward_zero(a: i128, b: i128) -> (q: i128)
    requires
        b != 0,
        -0x4000_0000_0000_0000_0000_0000_0000_0000 <= a <= 0x4000_0000_0000_0000_0000_0000_0000_0000,
        -0x4000_0000_0000_0000_0000_0000_0000_0000 <= b <= 0x4000_0000_0000_0000_0000_0000_0000_0000,
    ensures
        q == quotient_toward_zero(a as int, b as int),
{
    let m: i128 = if a < 0 { -a } else { a };
    let d: i128 = if b < 0 { -b } else { b };
    let q: i128 = m / d;
    assert(0 <= q <= m) by (nonlinear_arith)
        requires
            q == m as int / d as int,
            m >= 0,
            d > 0,
    ;
    if (a < 0) == (b < 0) {
        q
    } else {
        -q
    }
}

impl Fixed {
    #[verifier::type_invariant]
    spec fn in_range(self) -> bool {
        self.raw > i64::MIN
    }

    /// Whether `self` is a number: whether its raw value is one that
    /// `saturate` gives. Every value that executable code holds is one.
    pub open spec fn is_number(self) -> bool {
        self@ > i64::MIN
    }

    /// The opposite of `self`.
    pub open spec fn spec_opposite(self) -> Fixed {
        of_raw((-self@) as i64)
    }

    /// The number with the raw value nearest to `raw`: `raw` itself, but
    /// for `i64::MIN`, which gives `-i64::MAX`.
    pub fn from_raw(raw: i64) -> (r: Fixed)
        ensures
            r@ == saturate(raw as int),
            r.is_number(),
    {
        Fixed { raw: clamp(raw as i128) }
    }

    /// The raw value of `self`.
    pub fn raw(&self) -> (raw: i64)
        ensures
            raw == self@,
            self.is_number(),
    {
        proof {
            use_type_invariant(self);
        }
        self.raw
    }
}

impl Scalar for Fixed {
    open spec fn spec_from_count(n: u32) -> Fixed {
        of_raw(saturate(n * ONE_RAW) as i64)
    }

    open spec fn spec_plus(self, rhs: Fixed) -> Fixed {
        of_raw(saturate(self@ + rhs@) as i64)
    }

    open spec fn spec_minus(self, rhs: Fixed) -> Fixed {
        of_raw(saturate(self@ - rhs@) as i64)
    }

    open spec fn spec_times(self, rhs: Fixed) -> Fixed {
        of_raw(product_raw(self@ as int, rhs@ as int) as i64)
    }

    open spec fn spec_over(self, rhs: Fixed) -> Fixed {
        of_raw(quotient_raw(self@ as int, rhs@ as int) as i64)
    }

    open spec fn spec_exceeds(self, rhs: Fixed) -> bool {
        self@ > rhs@
    }

    fn from_count(n: u32) -> (r: Fixed) {
        let count: i128 = n as i128;
        assert(0 <= count * ONE_RAW <= 0x8000_0000_0000_0000) by (nonlinear_arith)
            requires
                0 <= count <= 0x1_0000_0000,
                ONE_RAW == 0x8000_0000,
        ;
        Fixed { raw: clamp(count * ONE_RAW as i128) }
    }

    fn plus(self, rhs: Fixed) -> (r: Fixed) {
        Fixed { raw: clamp(self.raw as i128 + rhs.raw as i128) }
    }

    fn minus(self, rhs: Fixed) -> (r: Fixed) {
        Fixed { raw: clamp(self.raw as i128 - rhs.raw as i128) }
    }

    fn times(self, rhs: Fixed) -> (r: Fixed) {
        let a: i128 = self.raw as i128;
        let b: i128 = rhs.raw as i128;
        assert(-0x4000_0000_0000_0000_0000_0000_0000_0000 <= a * b
            <= 0x4000_0000_0000_0000_0000_0000_0000_0000) by (nonlinear_arith)
            requires
                -0x8000_0000_0000_0000 <= a <= 0x8000_0000_0000_0000,
                -0x8000_0000_0000_0000 <= b <= 0x8000_0000_0000_0000,
        ;
        Fixed { raw: clamp(divide_toward_zero(a * b, ONE_RAW as i128)) }
    }

    fn over(self, rhs: Fixed) -> (r: Fixed) {
        if rhs.raw != 0 {
            let a: i128 = self.raw as i128;
            assert(-0x8000_0000_0000_0000_0000_0000 <= a * ONE_RAW <= 0x8000_0000_0000_0000_0000_0000)
                by (nonlinear_arith)
                requires
                    -0x8000_0000_0000_0000 <= a <= 0x8000_0000_0000_0000,
                    ONE_RAW == 0x8000_0000,
            ;
            Fixed { raw: clamp(divide_toward_zero(a * ONE_RAW as i128, rhs.raw as i128)) }
        } else if self.raw > 0 {
            Fixed { raw: i64::MAX }
        } else if self.raw < 0 {
            Fixed { raw: -i64::MAX }
        } else {
            Fixed { raw: 0 }
        }
    }

    fn exceeds(self, rhs: Fixed) -> (b: bool) {
        self.raw > rhs.raw
    }
}

/// Every count is a number: the conversion does not saturate.
pub proof fn from_count_is_exact(n: u32)
    ensures
        Fixed::spec_from_count(n)@ == n * ONE_RAW,
        Fixed::spec_from_count(n).is_number(),
{
    lemma_raw_round_trip();
}

/// Every result of an operation is a number, whatever the arguments.
pub proof fn results_are_numbers(a: Fixed, b: Fixed)
    ensures
        a.spec_plus(b).is_number(),
        a.spec_minus(b).is_number(),
        a.spec_times(b).is_number(),
        a.spec_over(b).is_number(),
        a.is_number() ==> a.spec_opposite().is_number(),
{
    lemma_raw_round_trip();
}

/// Negating one factor negates the product, and negating both leaves it
/// unchanged.
pub proof fn product_is_odd(a: Fixed, b: Fixed)
    requires
        a.is_number(),
        b.is_number(),
    ensures
        a.spec_opposite().spec_times(b) == a.spec_times(b).spec_opposite(),
        a.spec_times(b.spec_opposite()) == a.spec_times(b).spec_opposite(),
        a.spec_opposite().spec_times(b.spec_opposite()) == a.spec_times(b),
{
    lemma_raw_round_trip();
    let x = a@ as int;
    let y = b@ as int;
    assert((-x) * y == -(x * y) && x * (-y) == -(x * y) && (-x) * (-y) == x * y)
        by (nonlinear_arith);
    lemma_quotient_is_odd(x * y, ONE_RAW as int);
}

/// Negating both terms negates the sum and the difference.
pub proof fn sum_is_odd(a: Fixed, b: Fixed)
    requires
        a.is_number(),
        b.is_number(),
    ensures
        a.spec_opposite().spec_plus(b.spec_opposite()) == a.spec_plus(b).spec_opposite(),
        a.spec_opposite().spec_minus(b.spec_opposite()) == a.spec_minus(b).spec_opposite(),
{
    lemma_raw_round_trip();
}

/// Negating the dividend negates the quotient; so does negating a nonzero
/// divisor, and negating both leaves the quotient unchanged.
pub proof fn quotient_is_odd(a: Fixed, b: Fixed)
    requires
        a.is_number(),
        b.is_number(),
    ensures
        a.spec_opposite().spec_over(b) == a.spec_over(b).spec_opposite(),
        b@ != 0 ==> a.spec_over(b.spec_opposite()) == a.spec_over(b).spec_opposite(),
        b@ != 0 ==> a.spec_opposite().spec_over(b.spec_opposite()) == a.spec_over(b),
{
    lemma_raw_round_trip();
    let x = a@ as int;
    let y = b@ as int;
    assert((-x) * ONE_RAW == -(x * ONE_RAW)) by (nonlinear_arith);
    if y != 0 {
        lemma_quotient_is_odd(x * ONE_RAW, y);
        lemma_quotient_is_odd(x * ONE_RAW, -y);
    }
}

/// In fixed-point arithmetic zero absorbs, and adding zero to a number
/// gives that number.
pub proof fn fixed_zero_absorbs(a: Fixed)
    ensures
        zero_absorbs::<Fixed>(),
        a.is_number() ==> keeps_under_zero(a),
{
    lemma_raw_round_trip();
    let zero = Fixed::spec_from_count(0);
    assert forall|size: u32| size > 0 implies zero.spec_over(
        #[trigger] Fixed::spec_from_count(size),
    ) == zero by {
        assert(quotient_raw(0, Fixed::spec_from_count(size)@ as int) == 0);
    }
    assert forall|b: Fixed| #[trigger] zero.spec_times(b) == zero by {
        assert(product_raw(0, b@ as int) == 0);
    }
}

/// Negating the dividend negates a quotient rounded toward zero.
proof fn lemma_quotient_is_odd(a: int, b: int)
    requires
        b != 0,
    ensures
        quotient_toward_zero(-a, b) == -quotient_toward_zero(a, b),
{
    if a == 0 {
        assert(0int / magnitude(b) == 0) by (nonlinear_arith)
            requires
                magnitude(b) > 0,
        ;
    }
}

} // verus!
