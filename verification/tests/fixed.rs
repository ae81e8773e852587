use pathtracer::fixed::{Fixed, MAX_RAW, ONE_RAW};
use pathtracer::isqrt::integer_sqrt;

fn fx(x: f64) -> Fixed {
    Fixed::from_raw((x * 4294967296.0).round() as i64)
}

#[test]
fn constants_have_their_raw_values() {
    assert_eq!(Fixed::zero().raw, 0);
    assert_eq!(Fixed::one().raw, ONE_RAW);
    assert_eq!(ONE_RAW, 1i64 << 32);
    assert_eq!(MAX_RAW, i64::MAX);
    assert_eq!(Fixed::from_int(3).raw, 3 * ONE_RAW);
    assert_eq!(Fixed::from_int(-7).raw, -7 * ONE_RAW);
    assert_eq!(Fixed::from_int(i32::MIN + 1).raw, ((i32::MIN + 1) as i64) << 32);
    assert_eq!(Fixed::from_int(i32::MIN).raw, -MAX_RAW);
    assert_eq!(Fixed::from_int(i32::MAX).raw, (i32::MAX as i64) << 32);
}

#[test]
fn from_raw_clamps_the_lowest_value() {
    assert_eq!(Fixed::from_raw(i64::MIN).raw, -MAX_RAW);
    assert_eq!(Fixed::from_raw(-MAX_RAW).raw, -MAX_RAW);
    assert_eq!(Fixed::from_raw(12345).raw, 12345);
    assert_eq!(Fixed::from_raw(i64::MAX).raw, MAX_RAW);
}

#[test]
fn sums_and_differences_are_exact_in_range() {
    assert_eq!(fx(1.5) + fx(2.25), fx(3.75));
    assert_eq!(fx(1.5) - fx(2.25), fx(-0.75));
    assert_eq!(Fixed::from_raw(1) + Fixed::from_raw(-1), Fixed::zero());
}

#[test]
fn sums_and_differences_saturate() {
    let big = Fixed::from_raw(MAX_RAW);
    assert_eq!((big + Fixed::from_raw(1)).raw, MAX_RAW);
    assert_eq!((big + big).raw, MAX_RAW);
    assert_eq!((-big - Fixed::from_raw(1)).raw, -MAX_RAW);
    assert_eq!((-big - big).raw, -MAX_RAW);
    assert_eq!((Fixed { raw: i64::MIN } + Fixed::zero()).raw, -MAX_RAW);
}

#[test]
fn negation_is_exact_in_the_symmetric_range() {
    assert_eq!((-fx(2.5)).raw, fx(-2.5).raw);
    assert_eq!((-Fixed::from_raw(MAX_RAW)).raw, -MAX_RAW);
    assert_eq!((-Fixed { raw: i64::MIN }).raw, MAX_RAW);
    assert_eq!((-Fixed::zero()).raw, 0);
}

#[test]
fn products_are_exact_where_representable() {
    assert_eq!((fx(1.5) * fx(2.5)).raw, 16106127360);
    assert_eq!(fx(1.5) * fx(2.5), fx(3.75));
    assert_eq!(fx(-1.5) * fx(2.5), fx(-3.75));
    assert_eq!(fx(-1.5) * fx(-2.5), fx(3.75));
    assert_eq!(Fixed::one() * fx(0.3), fx(0.3));
    assert_eq!(Fixed::zero() * Fixed::from_raw(MAX_RAW), Fixed::zero());
}

#[test]
fn products_round_toward_zero() {
    assert_eq!((Fixed::from_raw(1) * Fixed::from_raw(1)).raw, 0);
    assert_eq!((Fixed::from_raw(3) * fx(0.5)).raw, 1);
    assert_eq!((Fixed::from_raw(-3) * fx(0.5)).raw, -1);
    assert_eq!((Fixed::from_raw(3) * fx(-0.5)).raw, -1);
}

#[test]
fn products_saturate() {
    let big = Fixed::from_int(100000);
    assert_eq!((big * big).raw, MAX_RAW);
    assert_eq!((big * -big).raw, -MAX_RAW);
    assert_eq!((Fixed { raw: i64::MIN } * Fixed { raw: i64::MIN }).raw, MAX_RAW);
}

#[test]
fn quotients_round_toward_zero() {
    assert_eq!((Fixed::one() / Fixed::from_int(3)).raw, 1431655765);
    assert_eq!((-Fixed::one() / Fixed::from_int(3)).raw, -1431655765);
    assert_eq!((Fixed::from_int(3) / Fixed::from_int(5)).raw, 2576980377);
    assert_eq!(fx(7.5) / fx(2.5), fx(3.0));
    assert_eq!(fx(7.5) / fx(-2.5), fx(-3.0));
}

#[test]
fn division_by_zero_gives_the_extreme_of_the_sign() {
    assert_eq!((Fixed::one() / Fixed::zero()).raw, MAX_RAW);
    assert_eq!((-Fixed::one() / Fixed::zero()).raw, -MAX_RAW);
    assert_eq!((Fixed::zero() / Fixed::zero()).raw, 0);
}

#[test]
fn quotients_saturate() {
    let big = Fixed::from_int(1 << 30);
    assert_eq!((big / Fixed::from_raw(1)).raw, MAX_RAW);
    assert_eq!((-big / Fixed::from_raw(1)).raw, -MAX_RAW);
}

#[test]
fn square_roots_are_rounded_down() {
    assert_eq!(Fixed::from_int(4).sqrt(), Fixed::from_int(2));
    assert_eq!(Fixed::from_int(25).sqrt(), Fixed::from_int(5));
    assert_eq!(Fixed::from_int(2).sqrt().raw, 6074000999);
    assert_eq!(fx(0.75).sqrt().raw, 3719550786);
    assert_eq!(fx(0.25).sqrt(), fx(0.5));
    assert_eq!(Fixed::zero().sqrt(), Fixed::zero());
    assert_eq!(Fixed::from_raw(1).sqrt().raw, 65536);
}

#[test]
fn the_root_of_a_negative_number_is_zero() {
    assert_eq!(Fixed::from_int(-4).sqrt(), Fixed::zero());
    assert_eq!(Fixed::from_raw(-1).sqrt(), Fixed::zero());
}

#[test]
fn the_root_of_the_largest_value_fits() {
    let r = Fixed::from_raw(MAX_RAW).sqrt().raw as i128;
    let n = (MAX_RAW as i128) << 32;
    assert!(r * r <= n && n < (r + 1) * (r + 1));
}

#[test]
fn integer_roots_are_rounded_down() {
    assert_eq!(integer_sqrt(0), 0);
    assert_eq!(integer_sqrt(1), 1);
    assert_eq!(integer_sqrt(15), 3);
    assert_eq!(integer_sqrt(16), 4);
    assert_eq!(integer_sqrt(17), 4);
    assert_eq!(integer_sqrt(1u128 << 64), 1u64 << 32);
    assert_eq!(integer_sqrt(u128::MAX), u64::MAX);
    assert_eq!(integer_sqrt((u64::MAX as u128) * (u64::MAX as u128)), u64::MAX);
    assert_eq!(integer_sqrt((u64::MAX as u128) * (u64::MAX as u128) - 1), u64::MAX - 1);
}

#[test]
fn absolute_values_and_maxima() {
    assert_eq!(fx(-2.5).abs(), fx(2.5));
    assert_eq!(fx(2.5).abs(), fx(2.5));
    assert_eq!(Fixed { raw: i64::MIN }.abs().raw, MAX_RAW);
    assert_eq!(fx(1.0).max(fx(2.0)), fx(2.0));
    assert_eq!(fx(2.0).max(fx(1.0)), fx(2.0));
    assert_eq!(fx(-1.0).max(fx(-2.0)), fx(-1.0));
}

#[test]
fn unit_samples_take_the_upper_bits() {
    assert_eq!(Fixed::from_unit_bits(0).raw, 0);
    assert_eq!(Fixed::from_unit_bits(u64::MAX).raw, ONE_RAW - 1);
    assert_eq!(Fixed::from_unit_bits(1u64 << 63), fx(0.5));
    assert_eq!(Fixed::from_unit_bits(0xffff_ffff).raw, 0);
    assert_eq!(Fixed::from_unit_bits(0x1_0000_0000).raw, 1);
}

#[test]
fn ratios_of_whole_numbers() {
    assert_eq!(Fixed::ratio(1, 4096).raw, 1 << 20);
    assert_eq!(Fixed::ratio(1, 3).raw, 1431655765);
    assert_eq!(Fixed::ratio(1280, 720).raw, 7635497415);
    assert_eq!(Fixed::ratio(6, 3), Fixed::from_int(2));
    assert_eq!(Fixed::ratio(0, 5), Fixed::zero());
    assert_eq!(Fixed::ratio(5, 0).raw, MAX_RAW);
    assert_eq!(Fixed::ratio(0, 0).raw, 0);
    assert_eq!(Fixed::ratio(i32::MAX as u32, 1).raw, (i32::MAX as i64) << 32);
    assert_eq!(Fixed::ratio(u32::MAX, 1).raw, MAX_RAW);
}
