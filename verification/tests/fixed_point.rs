use mandelbrot::fixed::{Fixed, ONE_RAW};
use mandelbrot::scalar::Scalar;

fn fx(raw: i64) -> Fixed {
    Fixed::from_raw(raw)
}

const LEAST: i64 = -i64::MAX;

#[test]
fn one_is_two_to_the_31() {
    assert_eq!(ONE_RAW, 1i64 << 31);
    assert_eq!(Fixed::from_count(1).raw(), ONE_RAW);
}

#[test]
fn from_raw_keeps_the_raw_value() {
    assert_eq!(Fixed::from_raw(-7).raw(), -7);
    assert_eq!(Fixed::from_raw(0).raw(), 0);
    assert_eq!(Fixed::from_raw(i64::MAX).raw(), i64::MAX);
    assert_eq!(Fixed::from_raw(-i64::MAX).raw(), -i64::MAX);
}

#[test]
fn the_range_of_raw_values_is_symmetric() {
    assert_eq!(Fixed::from_raw(i64::MIN).raw(), -i64::MAX);
    assert_eq!(Fixed::from_raw(i64::MIN), Fixed::from_raw(-i64::MAX));
}

#[test]
fn counts_are_scaled() {
    assert_eq!(Fixed::from_count(0), fx(0));
    assert_eq!(Fixed::from_count(4), fx(4 * ONE_RAW));
    assert_eq!(Fixed::from_count(800), fx(800 * ONE_RAW));
    assert_eq!(Fixed::from_count((1u32 << 31) - 1), fx(((1i64 << 31) - 1) << 31));
}

#[test]
fn every_count_is_exact() {
    assert_eq!(Fixed::from_count(1u32 << 31).raw(), 1i64 << 62);
    assert_eq!(Fixed::from_count(u32::MAX).raw(), (u32::MAX as i64) << 31);
    assert!(Fixed::from_count(u32::MAX).exceeds(Fixed::from_count(u32::MAX - 1)));
}

#[test]
fn sums_and_differences_are_exact_within_range() {
    assert_eq!(fx(5).plus(fx(-8)), fx(-3));
    assert_eq!(fx(5).minus(fx(-8)), fx(13));
    assert_eq!(fx(3 * ONE_RAW).plus(fx(ONE_RAW / 2)), fx(7 * ONE_RAW / 2));
    assert_eq!(fx(LEAST).plus(fx(i64::MAX)), fx(0));
}

#[test]
fn sums_and_differences_saturate() {
    assert_eq!(fx(i64::MAX).plus(fx(1)), fx(i64::MAX));
    assert_eq!(fx(LEAST).plus(fx(-1)), fx(LEAST));
    assert_eq!(fx(LEAST).minus(fx(1)), fx(LEAST));
    assert_eq!(fx(0).minus(fx(LEAST)), fx(i64::MAX));
    assert_eq!(fx(i64::MAX).minus(fx(LEAST)), fx(i64::MAX));
    assert_eq!(fx(LEAST).minus(fx(i64::MAX)), fx(LEAST));
}

#[test]
fn products_are_scaled_back() {
    let two = Fixed::from_count(2);
    let three = Fixed::from_count(3);
    assert_eq!(two.times(three), Fixed::from_count(6));
    let half = fx(ONE_RAW / 2);
    assert_eq!(half.times(half), fx(ONE_RAW / 4));
    assert_eq!(fx(-3 * ONE_RAW).times(half), fx(-3 * ONE_RAW / 2));
    assert_eq!(fx(-3 * ONE_RAW).times(fx(-ONE_RAW)), fx(3 * ONE_RAW));
    assert_eq!(fx(0).times(fx(LEAST)), fx(0));
}

#[test]
fn products_round_toward_zero() {
    let half = fx(ONE_RAW / 2);
    assert_eq!(fx(3).times(half), fx(1));
    assert_eq!(fx(-3).times(half), fx(-1));
    assert_eq!(fx(3).times(fx(-ONE_RAW / 2)), fx(-1));
    assert_eq!(fx(1).times(fx(1)), fx(0));
    assert_eq!(fx(-1).times(fx(1)), fx(0));
}

#[test]
fn products_saturate() {
    let big = fx(1i64 << 62);
    assert_eq!(big.times(big), fx(i64::MAX));
    assert_eq!(big.times(fx(-(1i64 << 62))), fx(LEAST));
    assert_eq!(fx(LEAST).times(fx(LEAST)), fx(i64::MAX));
    assert_eq!(fx(LEAST).times(fx(ONE_RAW)), fx(LEAST));
    assert_eq!(fx(LEAST).times(fx(-ONE_RAW)), fx(i64::MAX));
    assert_eq!(fx(1i64 << 62).times(Fixed::from_count(2)), fx(i64::MAX));
    assert_eq!(fx(-(1i64 << 62)).times(Fixed::from_count(2)), fx(LEAST));
}

#[test]
fn quotients_are_scaled_up() {
    let six = Fixed::from_count(6);
    let three = Fixed::from_count(3);
    assert_eq!(six.over(three), Fixed::from_count(2));
    assert_eq!(Fixed::from_count(1).over(Fixed::from_count(2)), fx(ONE_RAW / 2));
    assert_eq!(Fixed::from_count(1).over(Fixed::from_count(800)), fx(ONE_RAW / 800));
    assert_eq!(fx(-6 * ONE_RAW).over(three), fx(-2 * ONE_RAW));
    assert_eq!(fx(-6 * ONE_RAW).over(fx(-3 * ONE_RAW)), fx(2 * ONE_RAW));
    assert_eq!(fx(7).over(fx(7)), fx(ONE_RAW));
    assert_eq!(fx(i64::MAX).over(fx(i64::MAX)), fx(ONE_RAW));
}

#[test]
fn quotients_round_toward_zero() {
    let three = Fixed::from_count(3);
    assert_eq!(Fixed::from_count(1).over(three), fx(715827882));
    assert_eq!(fx(-ONE_RAW).over(three), fx(-715827882));
    assert_eq!(Fixed::from_count(2).over(three), fx(1431655765));
    assert_eq!(Fixed::from_count(2).over(fx(-3 * ONE_RAW)), fx(-1431655765));
}

#[test]
fn quotients_saturate() {
    assert_eq!(fx(i64::MAX).over(fx(1)), fx(i64::MAX));
    assert_eq!(fx(i64::MAX).over(fx(-1)), fx(LEAST));
    assert_eq!(fx(LEAST).over(fx(-1)), fx(i64::MAX));
    assert_eq!(fx(LEAST).over(fx(1)), fx(LEAST));
    assert_eq!(fx(ONE_RAW << 20).over(fx(1)), fx(i64::MAX));
}

#[test]
fn division_by_zero_saturates_by_sign() {
    assert_eq!(fx(1).over(fx(0)), fx(i64::MAX));
    assert_eq!(fx(-1).over(fx(0)), fx(LEAST));
    assert_eq!(fx(0).over(fx(0)), fx(0));
}

#[test]
fn comparison_is_strict() {
    assert!(fx(5).exceeds(fx(4)));
    assert!(!fx(4).exceeds(fx(4)));
    assert!(!fx(-5).exceeds(fx(4)));
    assert!(fx(i64::MAX).exceeds(fx(LEAST)));
}

#[test]
fn negating_an_argument_negates_or_keeps_the_result() {
    let samples = [
        0i64,
        1,
        3,
        ONE_RAW / 2,
        ONE_RAW,
        3 * ONE_RAW + 5,
        1 << 62,
        (1 << 62) + 1,
        i64::MAX - 1,
        i64::MAX,
    ];
    for a in samples {
        for b in samples {
            let (pa, na, pb, nb) = (fx(a), fx(-a), fx(b), fx(-b));
            assert_eq!(na.times(pb).raw(), -pa.times(pb).raw());
            assert_eq!(pa.times(nb).raw(), -pa.times(pb).raw());
            assert_eq!(na.times(nb), pa.times(pb));
            assert_eq!(na.plus(nb).raw(), -pa.plus(pb).raw());
            assert_eq!(na.minus(nb).raw(), -pa.minus(pb).raw());
            assert_eq!(na.over(pb).raw(), -pa.over(pb).raw());
            if b != 0 {
                assert_eq!(na.over(nb), pa.over(pb));
            }
        }
    }
}
