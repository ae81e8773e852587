//! Sine and cosine of angles measured in full turns.
//!
//! Within an eighth of a turn the sine is an odd polynomial of degree seven.
//! The cosine there is the root of one less the square of the sine, so that
//! sine and cosine of one angle always lie on the unit circle. The rest of
//! the turn follows by symmetry.

use crate::fixed::{lemma_mul_raw_zero, magnitude, mul_raw, Fixed, ONE_RAW};
use crate::isqrt::{
    floor_sqrt, integer_sqrt, is_floor_sqrt, lemma_floor_sqrt_exists, lemma_floor_sqrt_is,
};
use vstd::prelude::*;

verus! {

/// Raw representation of a quarter.
pub const QUARTER_RAW: i64 = 0x4000_0000;

/// Coefficient of `x` in the sine polynomial.
pub const SINE_C1: i64 = 0x1_921f_6255;

/// Coefficient of `-x^3` in the sine polynomial.
pub const SINE_C3: i64 = 0xa559_40a2;

/// Coefficient of `x^5` in the sine polynomial.
pub const SINE_C5: i64 = 0x1455_972b;

/// Coefficient of `-x^7` in the sine polynomial.
pub const SINE_C7: i64 = 0x011b_b8de;

/// An integer clamped to the raw values between zero and one.
pub open spec fn unit_clamp(x: int) -> int {
    if x < 0 {
        0
    } else if x > ONE_RAW {
        ONE_RAW as int
    } else {
        x
    }
}

/// Raw sine of `x` quarter turns, for `x` between zero and one: the
/// polynomial in Horner form, clamped to the unit interval.
pub open spec fn sine_arc(x: int) -> int {
    let x2 = mul_raw(x, x);
    let inner = SINE_C5 - mul_raw(x2, SINE_C7 as int);
    let middle = SINE_C3 - mul_raw(x2, inner);
    let outer = SINE_C1 - mul_raw(x2, middle);
    unit_clamp(mul_raw(x, outer))
}

/// Raw representation of a half.
pub const HALF_RAW: i64 = 0x8000_0000;

/// The other leg of a right triangle with a hypotenuse of one: the root of
/// one less the square of `a`, rounded down, for `a` between zero and one.
pub open spec fn complement(a: int) -> int {
    floor_sqrt(0x1_0000_0000_0000_0000 - a * a)
}

/// Raw sine and cosine of `x` quarter turns, for `x` between zero and one.
/// The smaller of the two is the sine polynomial of the smaller arc, the
/// other its complement, so that the squares of the two sum to one.
pub open spec fn arc_pair(x: int) -> (int, int) {
    if x <= HALF_RAW {
        (sine_arc(x), complement(sine_arc(x)))
    } else {
        (complement(sine_arc(ONE_RAW - x)), sine_arc(ONE_RAW - x))
    }
}

/// Raw sine of `fraction` full turns, for a fraction between zero and one.
pub open spec fn sine_within_turn(fraction: int) -> int {
    let quarter = fraction / (QUARTER_RAW as int);
    let x = (fraction % (QUARTER_RAW as int)) * 4;
    if quarter == 0 {
        arc_pair(x).0
    } else if quarter == 1 {
        arc_pair(x).1
    } else if quarter == 2 {
        -arc_pair(x).0
    } else {
        -arc_pair(x).1
    }
}

/// Raw cosine of `fraction` full turns, for a fraction between zero and
/// one.
pub open spec fn cosine_within_turn(fraction: int) -> int {
    let quarter = fraction / (QUARTER_RAW as int);
    let x = (fraction % (QUARTER_RAW as int)) * 4;
    if quarter == 0 {
        arc_pair(x).1
    } else if quarter == 1 {
        -arc_pair(x).0
    } else if quarter == 2 {
        -arc_pair(x).1
    } else {
        arc_pair(x).0
    }
}

/// Raw sine of `t` full turns: whole turns change nothing.
pub open spec fn sin_turns_raw(t: int) -> int {
    sine_within_turn(t % (ONE_RAW as int))
}

/// Raw cosine of `t` full turns: whole turns change nothing.
pub open spec fn cos_turns_raw(t: int) -> int {
    cosine_within_turn(t % (ONE_RAW as int))
}

/// The complement of a number between zero and one lies between zero and
/// one, and the squares of the two sum to one, up to the rounding of the
/// root.
pub proof fn lemma_complement(a: int)
    requires
        0 <= a <= ONE_RAW,
    ensures
        0 <= complement(a) <= ONE_RAW,
        0x1_0000_0000_0000_0000 - 2 * complement(a) - 1 < a * a + complement(a) * complement(a)
            <= 0x1_0000_0000_0000_0000,
{
    assert(0 <= a * a <= 0x1_0000_0000 * 0x1_0000_0000) by (nonlinear_arith)
        requires
            0 <= a <= 0x1_0000_0000,
    ;
    let n = 0x1_0000_0000_0000_0000 - a * a;
    lemma_floor_sqrt_exists(n);
    let c = complement(a);
    assert((c + 1) * (c + 1) == c * c + 2 * c + 1) by (nonlinear_arith);
    if c > ONE_RAW {
        assert(c * c >= 0x1_0000_0001 * 0x1_0000_0001) by (nonlinear_arith)
            requires
                c >= 0x1_0000_0001,
        ;
    }
}

/// The product of a number between zero and one with a number that is at
/// least zero lies between zero and the latter.
pub proof fn lemma_mul_raw_unit(a: int, b: int)
    requires
        0 <= a <= ONE_RAW,
        0 <= b <= 0x4_0000_0000,
    ensures
        0 <= mul_raw(a, b) <= b,
{
    reveal(mul_raw);
    assert(0 <= (a * b) / (ONE_RAW as int) <= b) by (nonlinear_arith)
        requires
            0 <= a <= ONE_RAW,
            0 <= b,
            ONE_RAW == 0x1_0000_0000,
    ;
    assert(magnitude(a) * magnitude(b) == a * b);
}

/// The fractional part of a raw value: its distance from the next whole
/// number below.
fn fraction_of(raw: i64) -> (f: i64)
    ensures
        f == raw as int % (ONE_RAW as int),
        0 <= f < ONE_RAW,
{
    if raw >= 0 {
        raw % ONE_RAW
    } else {
        let below: i128 = (-(raw as i128)) % (ONE_RAW as i128);
        if below == 0 {
            0
        } else {
            (ONE_RAW as i128 - below) as i64
        }
    }
}

/// Evaluates the sine polynomial on a raw value between zero and one.
fn sine_of_arc(x: i64) -> (r: i64)
    requires
        0 <= x <= ONE_RAW,
    ensures
        r == sine_arc(x as int),
        0 <= r <= ONE_RAW,
{
    let x = Fixed { raw: x };
    let x2 = x * x;
    proof {
        lemma_mul_raw_unit(x@, x@);
        lemma_mul_raw_unit(x2@, SINE_C7 as int);
    }
    let inner: i64 = SINE_C5 - (x2 * Fixed { raw: SINE_C7 }).raw;
    proof {
        lemma_mul_raw_unit(x2@, inner as int);
    }
    let middle: i64 = SINE_C3 - (x2 * Fixed { raw: inner }).raw;
    proof {
        lemma_mul_raw_unit(x2@, middle as int);
    }
    let outer: i64 = SINE_C1 - (x2 * Fixed { raw: middle }).raw;
    proof {
        lemma_mul_raw_unit(x@, outer as int);
    }
    let value: i64 = (x * Fixed { raw: outer }).raw;
    if value > ONE_RAW {
        ONE_RAW
    } else {
        value
    }
}

/// Evaluates sine and cosine of `x` quarter turns.
fn pair_of_arc(x: i64) -> (r: (i64, i64))
    requires
        0 <= x <= ONE_RAW,
    ensures
        r.0 == arc_pair(x as int).0,
        r.1 == arc_pair(x as int).1,
        0 <= r.0 <= ONE_RAW,
        0 <= r.1 <= ONE_RAW,
{
    let small: i64 = if x <= HALF_RAW {
        sine_of_arc(x)
    } else {
        sine_of_arc(ONE_RAW - x)
    };
    proof {
        lemma_complement(small as int);
        assert(0 <= small * small <= 0x1_0000_0000 * 0x1_0000_0000) by (nonlinear_arith)
            requires
                0 <= small <= 0x1_0000_0000,
        ;
    }
    let square: u128 = (small as u128) * (small as u128);
    let other: i64 = integer_sqrt(0x1_0000_0000_0000_0000 - square) as i64;
    if x <= HALF_RAW {
        (small, other)
    } else {
        (other, small)
    }
}

/// Evaluates sine and cosine from the fractional part of the number of
/// turns.
fn pair_of_fraction(fraction: i64) -> (r: (i64, i64))
    requires
        0 <= fraction < ONE_RAW,
    ensures
        r.0 == sine_within_turn(fraction as int),
        r.1 == cosine_within_turn(fraction as int),
        -ONE_RAW <= r.0 <= ONE_RAW,
        -ONE_RAW <= r.1 <= ONE_RAW,
{
    let quarter: i64 = fraction / QUARTER_RAW;
    let x: i64 = (fraction % QUARTER_RAW) * 4;
    let pair = pair_of_arc(x);
    if quarter == 0 {
        (pair.0, pair.1)
    } else if quarter == 1 {
        (pair.1, -pair.0)
    } else if quarter == 2 {
        (-pair.0, -pair.1)
    } else {
        (-pair.1, pair.0)
    }
}

impl Fixed {
    /// The sine of `self` full turns, in contracts.
    pub open spec fn spec_sin_turns(self) -> Fixed {
        Fixed::of(sin_turns_raw(self@))
    }

    /// The cosine of `self` full turns, in contracts.
    pub open spec fn spec_cos_turns(self) -> Fixed {
        Fixed::of(cos_turns_raw(self@))
    }

    /// The sine of the angle of `self` full turns.
    #[verifier::when_used_as_spec(spec_sin_turns)]
    pub fn sin_turns(self) -> (r: Fixed)
        ensures
            r == self.spec_sin_turns(),
            -ONE_RAW <= r@ <= ONE_RAW,
    {
        Fixed { raw: pair_of_fraction(fraction_of(self.raw)).0 }
    }

    /// The cosine of the angle of `self` full turns.
    #[verifier::when_used_as_spec(spec_cos_turns)]
    pub fn cos_turns(self) -> (r: Fixed)
        ensures
            r == self.spec_cos_turns(),
            -ONE_RAW <= r@ <= ONE_RAW,
    {
        Fixed { raw: pair_of_fraction(fraction_of(self.raw)).1 }
    }
}

/// The sine polynomial is zero at zero.
pub proof fn lemma_sine_arc_zero()
    ensures
        sine_arc(0) == 0,
        arc_pair(0) == (0int, ONE_RAW as int),
{
    lemma_mul_raw_zero(0);
    lemma_mul_raw_zero(SINE_C1 - mul_raw(0, SINE_C3 - mul_raw(0, SINE_C5 - mul_raw(0, SINE_C7 as int))));
    assert(is_floor_sqrt(0x1_0000_0000_0000_0000, ONE_RAW as int));
    lemma_floor_sqrt_is(0x1_0000_0000_0000_0000, ONE_RAW as int);
    assert(0int * 0int == 0);
}

/// Sine and cosine are exact at the quarter turns.
pub proof fn lemma_quarter_turns()
    ensures
        sin_turns_raw(0) == 0,
        sin_turns_raw(QUARTER_RAW as int) == ONE_RAW,
        sin_turns_raw(2 * QUARTER_RAW) == 0,
        sin_turns_raw(3 * QUARTER_RAW) == -ONE_RAW,
        cos_turns_raw(0) == ONE_RAW,
        cos_turns_raw(QUARTER_RAW as int) == 0,
        cos_turns_raw(2 * QUARTER_RAW) == -ONE_RAW,
        cos_turns_raw(3 * QUARTER_RAW) == 0,
{
    lemma_sine_arc_zero();
}

/// The arc between zero and one has a sine and a cosine between zero and
/// one whose squares sum to one, up to the rounding of one root.
pub proof fn lemma_arc_pair(x: int)
    requires
        0 <= x <= ONE_RAW,
    ensures
        0 <= arc_pair(x).0 <= ONE_RAW,
        0 <= arc_pair(x).1 <= ONE_RAW,
        0x1_0000_0000_0000_0000 - 2 * ONE_RAW - 1 < arc_pair(x).0 * arc_pair(x).0 + arc_pair(x).1
            * arc_pair(x).1 <= 0x1_0000_0000_0000_0000,
{
    let small = if x <= HALF_RAW {
        sine_arc(x)
    } else {
        sine_arc(ONE_RAW - x)
    };
    lemma_complement(small);
}

/// Sine and cosine lie between minus one and one.
pub proof fn lemma_sine_bounds(t: int)
    ensures
        -ONE_RAW <= sin_turns_raw(t) <= ONE_RAW,
        -ONE_RAW <= cos_turns_raw(t) <= ONE_RAW,
{
    let f = t % (ONE_RAW as int);
    lemma_arc_pair((f % (QUARTER_RAW as int)) * 4);
}

/// Sine and cosine of one angle lie on the unit circle: their squares sum
/// to one, less at most `2^-31` and a little.
pub proof fn lemma_unit_circle(t: int)
    ensures
        0x1_0000_0000_0000_0000 - 2 * ONE_RAW - 1 < sin_turns_raw(t) * sin_turns_raw(t)
            + cos_turns_raw(t) * cos_turns_raw(t) <= 0x1_0000_0000_0000_0000,
{
    let f = t % (ONE_RAW as int);
    let x = (f % (QUARTER_RAW as int)) * 4;
    lemma_arc_pair(x);
    let a = arc_pair(x).0;
    let b = arc_pair(x).1;
    assert((-a) * (-a) == a * a && (-b) * (-b) == b * b) by (nonlinear_arith);
}

/// The cosine is the sine a quarter turn ahead.
pub proof fn lemma_cosine_is_sine_ahead(t: int)
    ensures
        cos_turns_raw(t) == sin_turns_raw(t + QUARTER_RAW),
{
    let one = ONE_RAW as int;
    let quarter = QUARTER_RAW as int;
    let f = t % one;
    let g = (t + quarter) % one;
    assert(g == if f < 3 * quarter {
        f + quarter
    } else {
        f - 3 * quarter
    });
    assert(g % quarter == f % quarter);
    assert(g / quarter == if f < 3 * quarter {
        f / quarter + 1
    } else {
        f / quarter - 3
    });
}

/// A whole turn changes neither sine nor cosine; half a turn negates both.
pub proof fn lemma_sine_periodic(t: int)
    ensures
        sin_turns_raw(t + ONE_RAW) == sin_turns_raw(t),
        cos_turns_raw(t + ONE_RAW) == cos_turns_raw(t),
        sin_turns_raw(t + 2 * QUARTER_RAW) == -sin_turns_raw(t),
        cos_turns_raw(t + 2 * QUARTER_RAW) == -cos_turns_raw(t),
{
    assert((t + ONE_RAW) % (ONE_RAW as int) == t % (ONE_RAW as int));
    let one = ONE_RAW as int;
    let quarter = QUARTER_RAW as int;
    let f = t % one;
    let g = (t + 2 * quarter) % one;
    assert(g == if f < 2 * quarter {
        f + 2 * quarter
    } else {
        f - 2 * quarter
    });
    assert(g % quarter == f % quarter);
    assert(g / quarter == if f < 2 * quarter {
        f / quarter + 2
    } else {
        f / quarter - 2
    });
}

} // verus!
