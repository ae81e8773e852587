//! Saturating Q31.32 fixed-point numbers.
//!
//! A [`Fixed`] stores the integer `raw` and stands for the rational number
//! `raw / 2^32`. Every operation is total: results that leave the
//! representable range are clamped to the symmetric interval
//! `[-MAX_RAW, MAX_RAW]`, products and quotients are rounded toward zero, and
//! degenerate inputs (a zero divisor, the root of a negative number) resolve
//! to a fixed fallback value.

use crate::isqrt::{floor_sqrt, integer_sqrt, is_floor_sqrt, lemma_floor_sqrt_exists};
use vstd::arithmetic::div_mod::{lemma_div_pos_is_pos, lemma_fundamental_div_mod, lemma_mod_bound};
use vstd::prelude::*;
use vstd::std_specs::ops::{AddSpecImpl, DivSpecImpl, MulSpecImpl, NegSpecImpl, SubSpecImpl};

verus! {

/// Raw representation of the number one.
pub const ONE_RAW: i64 = 0x1_0000_0000;

/// Largest raw magnitude that an operation produces.
pub const MAX_RAW: i64 = 0x7fff_ffff_ffff_ffff;

/// Clamps an integer to the symmetric range of raw values.
pub open spec fn saturate(x: int) -> int {
    if x > MAX_RAW {
        MAX_RAW as int
    } else if x < -MAX_RAW {
        -(MAX_RAW as int)
    } else {
        x
    }
}

/// Absolute value of an integer.
pub open spec fn magnitude(x: int) -> int {
    if x < 0 {
        -x
    } else {
        x
    }
}

/// The integer of magnitude `m` that is negative exactly if `negative`.
pub open spec fn with_sign(negative: bool, m: int) -> int {
    if negative {
        -m
    } else {
        m
    }
}

/// Raw value of a sum.
pub open spec fn add_raw(a: int, b: int) -> int {
    saturate(a + b)
}

/// Raw value of a difference.
pub open spec fn sub_raw(a: int, b: int) -> int {
    saturate(a - b)
}

/// Raw value of a negation.
pub open spec fn neg_raw(a: int) -> int {
    saturate(-a)
}

/// Raw value of a product: the exact product of the two numbers, rounded
/// toward zero to a multiple of `2^-32`, then clamped.
#[verifier::opaque]
pub open spec fn mul_raw(a: int, b: int) -> int {
    saturate(with_sign((a < 0) != (b < 0), (magnitude(a) * magnitude(b)) / (ONE_RAW as int)))
}

/// Raw value of a quotient: the exact quotient rounded toward zero, then
/// clamped. Dividing by zero gives the extreme value with the sign of the
/// dividend, and zero for `0 / 0`.
#[verifier::opaque]
pub open spec fn div_raw(a: int, b: int) -> int {
    if b == 0 {
        if a > 0 {
            MAX_RAW as int
        } else if a < 0 {
            -(MAX_RAW as int)
        } else {
            0
        }
    } else {
        saturate(with_sign((a < 0) != (b < 0), (magnitude(a) * ONE_RAW) / magnitude(b)))
    }
}

/// Raw value of a square root, rounded down to a multiple of `2^-32`. The
/// root of a negative number is zero.
pub open spec fn sqrt_raw(a: int) -> int {
    if a <= 0 {
        0
    } else {
        floor_sqrt(a * ONE_RAW)
    }
}

/// Raw value of an absolute value.
pub open spec fn abs_raw(a: int) -> int {
    saturate(magnitude(a))
}

/// The larger of two integers.
pub open spec fn max_raw(a: int, b: int) -> int {
    if a < b {
        b
    } else {
        a
    }
}

/// Raw value of the quotient of two natural numbers, rounded down and
/// clamped.
pub open spec fn ratio_raw(numerator: int, denominator: int) -> int {
    if denominator == 0 {
        if numerator > 0 {
            MAX_RAW as int
        } else {
            0
        }
    } else {
        saturate((numerator * ONE_RAW) / denominator)
    }
}

/// Raw value of the number in `[0, 1)` that the upper 32 bits of `bits`
/// spell out as a binary fraction.
pub open spec fn unit_raw(bits: int) -> int {
    bits / (ONE_RAW as int)
}

/// The square root of a raw value fits the raw range.
pub proof fn lemma_sqrt_raw_bounds(a: int)
    requires
        a <= MAX_RAW,
    ensures
        0 <= sqrt_raw(a) < 0x1_0000_0000_0000,
        a > 0 ==> is_floor_sqrt(a * ONE_RAW, sqrt_raw(a)),
{
    if a > 0 {
        lemma_floor_sqrt_exists(a * ONE_RAW);
        let r = sqrt_raw(a);
        if r >= 0x1_0000_0000_0000 {
            assert(r * r >= 0x1_0000_0000_0000 * 0x1_0000_0000_0000) by (nonlinear_arith)
                requires
                    r >= 0x1_0000_0000_0000,
            ;
        }
    }
}

/// Products and quotients lie in the symmetric range.
pub proof fn lemma_raw_range(a: int, b: int)
    ensures
        -MAX_RAW <= mul_raw(a, b) <= MAX_RAW,
        -MAX_RAW <= div_raw(a, b) <= MAX_RAW,
{
    reveal(mul_raw);
    reveal(div_raw);
}

/// Multiplication is commutative.
pub proof fn lemma_mul_raw_commutative(a: int, b: int)
    ensures
        mul_raw(a, b) == mul_raw(b, a),
{
    reveal(mul_raw);
    assert(magnitude(a) * magnitude(b) == magnitude(b) * magnitude(a)) by (nonlinear_arith);
}

/// Negating one factor negates the product.
pub proof fn lemma_mul_raw_negated(a: int, b: int)
    ensures
        mul_raw(-a, b) == -mul_raw(a, b),
        mul_raw(a, -b) == -mul_raw(a, b),
{
    reveal(mul_raw);
    assert(magnitude(-a) == magnitude(a));
    assert(magnitude(-b) == magnitude(b));
    if a == 0 || b == 0 {
        assert(magnitude(a) * magnitude(b) == 0) by (nonlinear_arith)
            requires
                magnitude(a) == 0 || magnitude(b) == 0,
        ;
    }
}

/// A product with zero is zero.
pub proof fn lemma_mul_raw_zero(a: int)
    ensures
        mul_raw(0, a) == 0,
        mul_raw(a, 0) == 0,
{
    reveal(mul_raw);
    assert(magnitude(0) * magnitude(a) == 0) by (nonlinear_arith);
    assert(magnitude(a) * magnitude(0) == 0) by (nonlinear_arith);
}

/// Multiplying by one changes nothing but the one value outside the
/// symmetric range.
pub proof fn lemma_mul_raw_one(a: int)
    ensures
        mul_raw(a, ONE_RAW as int) == saturate(a),
        mul_raw(ONE_RAW as int, a) == saturate(a),
{
    reveal(mul_raw);
    assert((magnitude(a) * ONE_RAW) / (ONE_RAW as int) == magnitude(a)) by (nonlinear_arith)
        requires
            ONE_RAW == 0x1_0000_0000,
    ;
    assert(magnitude(a) * magnitude(ONE_RAW as int) == magnitude(a) * ONE_RAW);
    lemma_mul_raw_commutative(a, ONE_RAW as int);
}

/// A quotient of natural numbers, rounded down, brackets the dividend.
pub proof fn lemma_quotient_brackets(n: int, d: int)
    requires
        0 <= n,
        0 < d,
    ensures
        0 <= n / d,
        (n / d) * d <= n < (n / d) * d + d,
{
    lemma_fundamental_div_mod(n, d);
    lemma_mod_bound(n, d);
    lemma_div_pos_is_pos(n, d);
    assert(d * (n / d) == (n / d) * d) by (nonlinear_arith);
}

/// Dividing a number by `p` and multiplying it by `p` again gives the number
/// back, up to rounding: for `0 <= c <= p` and `p` above zero and at most
/// one, the product of `p` with `c / p` lies between `c - 1` and `c`, and
/// `p / p` is one.
pub proof fn lemma_rescale_round_trip(c: int, p: int)
    requires
        0 <= c <= p,
        0 < p <= ONE_RAW,
    ensures
        c - 1 <= mul_raw(p, div_raw(c, p)) <= c,
        0 <= div_raw(c, p) <= ONE_RAW,
        div_raw(p, p) == ONE_RAW,
{
    reveal(mul_raw);
    reveal(div_raw);
    let one = ONE_RAW as int;
    let scaled = c * one;
    let weight = scaled / p;
    lemma_quotient_brackets(scaled, p);
    assert(weight <= one) by {
        if weight > one {
            assert(weight * p >= (one + 1) * p) by (nonlinear_arith)
                requires
                    weight >= one + 1,
                    p > 0,
            ;
            assert((one + 1) * p == one * p + p) by (nonlinear_arith);
            assert(c * one <= p * one) by (nonlinear_arith)
                requires
                    c <= p,
                    one >= 0,
            ;
            assert(p * one == one * p) by (nonlinear_arith);
        }
    }
    assert(div_raw(c, p) == weight);
    let product = p * weight;
    assert(product == weight * p) by (nonlinear_arith)
        requires
            product == p * weight,
    ;
    assert(0 <= product);
    assert(magnitude(p) * magnitude(weight) == product);
    assert(product > (c - 1) * one) by (nonlinear_arith)
        requires
            product > c * one - p,
            p <= one,
    ;
    assert((p * one) / p == one) by (nonlinear_arith)
        requires
            p > 0,
    ;
}

/// Magnitude of a raw value as an unsigned machine integer.
pub(crate) fn magnitude_of(x: i64) -> (m: u128)
    ensures
        m == magnitude(x as int),
        m <= 0x8000_0000_0000_0000,
{
    if x < 0 {
        (-(x as i128)) as u128
    } else {
        x as u128
    }
}

/// Clamps a magnitude and attaches a sign.
pub(crate) fn signed_saturated(negative: bool, m: u128) -> (r: i64)
    ensures
        r == saturate(with_sign(negative, m as int)),
{
    let clamped: i64 = if m > MAX_RAW as u128 {
        MAX_RAW
    } else {
        m as i64
    };
    if negative {
        -clamped
    } else {
        clamped
    }
}

/// Clamps a wide integer to the raw range.
fn saturated(x: i128) -> (r: i64)
    ensures
        r == saturate(x as int),
{
    if x > MAX_RAW as i128 {
        MAX_RAW
    } else if x < -(MAX_RAW as i128) {
        -MAX_RAW
    } else {
        x as i64
    }
}

/// A Q31.32 fixed-point number with the value `raw / 2^32`.
#[derive(Clone, Copy, PartialEq, Eq, Structural, Debug)]
pub struct Fixed {
    pub raw: i64,
}

impl View for Fixed {
    type V = int;

    open spec fn view(&self) -> int {
        self.raw as int
    }
}

impl Fixed {
    /// The number with raw value `raw`, in contracts.
    pub open spec fn of(raw: int) -> Fixed {
        Fixed { raw: raw as i64 }
    }

    /// The whole number `n`, clamped to the symmetric range, in contracts.
    pub open spec fn whole(n: int) -> Fixed {
        Fixed::of(saturate(n * ONE_RAW))
    }

    /// The value lies in the symmetric range: it is not the one raw value
    /// below `-MAX_RAW`. Every result of an operation does.
    pub open spec fn wf(self) -> bool {
        self@ >= -MAX_RAW
    }

    /// The sum, in contracts.
    pub open spec fn plus(self, other: Fixed) -> Fixed {
        Fixed::of(add_raw(self@, other@))
    }

    /// The difference, in contracts.
    pub open spec fn minus(self, other: Fixed) -> Fixed {
        Fixed::of(sub_raw(self@, other@))
    }

    /// The product, in contracts.
    pub open spec fn times(self, other: Fixed) -> Fixed {
        Fixed::of(mul_raw(self@, other@))
    }

    /// The quotient, in contracts.
    pub open spec fn over(self, other: Fixed) -> Fixed {
        Fixed::of(div_raw(self@, other@))
    }

    /// The negation, in contracts.
    pub open spec fn negated(self) -> Fixed {
        Fixed::of(neg_raw(self@))
    }

    /// The square root, in contracts.
    pub open spec fn root(self) -> Fixed {
        Fixed::of(sqrt_raw(self@))
    }

    /// The absolute value, in contracts.
    pub open spec fn absolute(self) -> Fixed {
        Fixed::of(abs_raw(self@))
    }

    /// The larger of two numbers, in contracts.
    pub open spec fn larger(self, other: Fixed) -> Fixed {
        Fixed::of(max_raw(self@, other@))
    }

    /// The number with the given raw representation, clamped to the
    /// symmetric range.
    pub fn from_raw(raw: i64) -> (r: Fixed)
        ensures
            r@ == saturate(raw as int),
            r.wf(),
    {
        Fixed { raw: saturated(raw as i128) }
    }

    /// The quotient of two whole numbers, rounded down to a multiple of
    /// `2^-32`. A zero denominator gives the largest value, or zero for
    /// `0 / 0`.
    pub fn ratio(numerator: u32, denominator: u32) -> (r: Fixed)
        ensures
            r@ == ratio_raw(numerator as int, denominator as int),
            r.wf(),
    {
        if denominator == 0 {
            if numerator > 0 {
                Fixed { raw: MAX_RAW }
            } else {
                Fixed { raw: 0 }
            }
        } else {
            let quotient: u128 = ((numerator as u128) * 0x1_0000_0000) / (denominator as u128);
            Fixed { raw: signed_saturated(false, quotient) }
        }
    }

    /// The number zero.
    pub fn zero() -> (r: Fixed)
        ensures
            r@ == 0,
    {
        Fixed { raw: 0 }
    }

    /// The number one.
    pub fn one() -> (r: Fixed)
        ensures
            r@ == ONE_RAW,
    {
        Fixed { raw: ONE_RAW }
    }

    /// The whole number `n`; the lowest whole number is clamped to the
    /// symmetric range.
    pub fn from_int(n: i32) -> (r: Fixed)
        ensures
            r == Fixed::whole(n as int),
            r@ == saturate(n * ONE_RAW),
            r.wf(),
    {
        Fixed { raw: saturated((n as i128) * (ONE_RAW as i128)) }
    }

    /// The number in `[0, 1)` whose binary fraction is the upper 32 bits of
    /// `bits`: a uniform sample of the unit interval when `bits` is uniform.
    pub fn from_unit_bits(bits: u64) -> (r: Fixed)
        ensures
            r@ == unit_raw(bits as int),
            0 <= r@ < ONE_RAW,
    {
        Fixed { raw: (bits / 0x1_0000_0000) as i64 }
    }

    /// The square root, rounded down; zero for a negative number.
    pub fn sqrt(self) -> (r: Fixed)
        ensures
            r == self.root(),
            r@ == sqrt_raw(self@),
    {
        if self.raw <= 0 {
            Fixed { raw: 0 }
        } else {
            proof {
                lemma_sqrt_raw_bounds(self@);
            }
            let root: u64 = integer_sqrt((self.raw as u128) * 0x1_0000_0000);
            Fixed { raw: root as i64 }
        }
    }

    /// The absolute value.
    pub fn abs(self) -> (r: Fixed)
        ensures
            r == self.absolute(),
            r@ == abs_raw(self@),
    {
        Fixed { raw: signed_saturated(false, magnitude_of(self.raw)) }
    }

    /// The larger of two numbers.
    pub fn max(self, other: Fixed) -> (r: Fixed)
        ensures
            r == self.larger(other),
            r@ == max_raw(self@, other@),
    {
        if self.raw < other.raw {
            other
        } else {
            self
        }
    }
}

impl core::ops::Add<Fixed> for Fixed {
    type Output = Fixed;

    fn add(self, other: Fixed) -> (r: Fixed)
        ensures
            r@ == add_raw(self@, other@),
    {
        Fixed { raw: saturated(self.raw as i128 + other.raw as i128) }
    }
}

impl AddSpecImpl<Fixed> for Fixed {
    open spec fn obeys_add_spec() -> bool {
        true
    }

    open spec fn add_req(self, other: Fixed) -> bool {
        true
    }

    open spec fn add_spec(self, other: Fixed) -> Fixed {
        self.plus(other)
    }
}

impl core::ops::Sub<Fixed> for Fixed {
    type Output = Fixed;

    fn sub(self, other: Fixed) -> (r: Fixed)
        ensures
            r@ == sub_raw(self@, other@),
    {
        Fixed { raw: saturated(self.raw as i128 - other.raw as i128) }
    }
}

impl SubSpecImpl<Fixed> for Fixed {
    open spec fn obeys_sub_spec() -> bool {
        true
    }

    open spec fn sub_req(self, other: Fixed) -> bool {
        true
    }

    open spec fn sub_spec(self, other: Fixed) -> Fixed {
        self.minus(other)
    }
}

impl core::ops::Neg for Fixed {
    type Output = Fixed;

    fn neg(self) -> (r: Fixed)
        ensures
            r@ == neg_raw(self@),
    {
        Fixed { raw: saturated(-(self.raw as i128)) }
    }
}

impl NegSpecImpl for Fixed {
    open spec fn obeys_neg_spec() -> bool {
        true
    }

    open spec fn neg_req(self) -> bool {
        true
    }

    open spec fn neg_spec(self) -> Fixed {
        self.negated()
    }
}

impl core::ops::Mul<Fixed> for Fixed {
    type Output = Fixed;

    fn mul(self, other: Fixed) -> (r: Fixed)
        ensures
            r@ == mul_raw(self@, other@),
    {
        reveal(mul_raw);
        let a: u128 = magnitude_of(self.raw);
        let b: u128 = magnitude_of(other.raw);
        assert(a * b <= 0x8000_0000_0000_0000 * 0x8000_0000_0000_0000) by (nonlinear_arith)
            requires
                a <= 0x8000_0000_0000_0000,
                b <= 0x8000_0000_0000_0000,
        ;
        let quotient: u128 = (a * b) / (ONE_RAW as u128);
        Fixed { raw: signed_saturated((self.raw < 0) != (other.raw < 0), quotient) }
    }
}

impl MulSpecImpl<Fixed> for Fixed {
    open spec fn obeys_mul_spec() -> bool {
        true
    }

    open spec fn mul_req(self, other: Fixed) -> bool {
        true
    }

    open spec fn mul_spec(self, other: Fixed) -> Fixed {
        self.times(other)
    }
}

impl core::ops::Div<Fixed> for Fixed {
    type Output = Fixed;

    fn div(self, other: Fixed) -> (r: Fixed)
        ensures
            r@ == div_raw(self@, other@),
    {
        reveal(div_raw);
        if other.raw == 0 {
            if self.raw > 0 {
                Fixed { raw: MAX_RAW }
            } else if self.raw < 0 {
                Fixed { raw: -MAX_RAW }
            } else {
                Fixed { raw: 0 }
            }
        } else {
            let a: u128 = magnitude_of(self.raw);
            let b: u128 = magnitude_of(other.raw);
            assert(a * ONE_RAW <= 0x8000_0000_0000_0000 * 0x1_0000_0000) by (nonlinear_arith)
                requires
                    a <= 0x8000_0000_0000_0000,
                    ONE_RAW == 0x1_0000_0000,
            ;
            let quotient: u128 = (a * (ONE_RAW as u128)) / b;
            Fixed { raw: signed_saturated((self.raw < 0) != (other.raw < 0), quotient) }
        }
    }
}

impl DivSpecImpl<Fixed> for Fixed {
    open spec fn obeys_div_spec() -> bool {
        true
    }

    open spec fn div_req(self, other: Fixed) -> bool {
        true
    }

    open spec fn div_spec(self, other: Fixed) -> Fixed {
        self.over(other)
    }
}

/// Negating one factor negates the product.
pub proof fn lemma_negated_times(a: Fixed, b: Fixed)
    requires
        a.wf(),
    ensures
        a.negated().times(b) == a.times(b).negated(),
        b.times(a.negated()) == b.times(a).negated(),
{
    lemma_mul_raw_negated(a@, b@);
    lemma_mul_raw_negated(b@, a@);
    lemma_raw_range(a@, b@);
    lemma_raw_range(b@, a@);
    assert(a.negated()@ == -a@);
}

/// The sum of two negations is the negation of the sum.
pub proof fn lemma_negated_plus(a: Fixed, b: Fixed)
    requires
        a.wf(),
        b.wf(),
    ensures
        a.negated().plus(b.negated()) == a.plus(b).negated(),
{
}

/// Swapping the operands of a difference negates it.
pub proof fn lemma_minus_swapped(a: Fixed, b: Fixed)
    ensures
        a.minus(b) == b.minus(a).negated(),
{
}

/// Multiplication is commutative.
pub proof fn lemma_times_commutative(a: Fixed, b: Fixed)
    ensures
        a.times(b) == b.times(a),
{
    lemma_mul_raw_commutative(a@, b@);
}

/// A square is never negative.
pub proof fn lemma_times_self_nonnegative(a: Fixed)
    ensures
        a.times(a)@ >= 0,
{
    reveal(mul_raw);
    assert(magnitude(a@) * magnitude(a@) >= 0) by (nonlinear_arith);
}

/// Every operation yields a value in the symmetric range.
pub proof fn lemma_results_wf(a: Fixed, b: Fixed)
    ensures
        a.plus(b).wf(),
        a.minus(b).wf(),
        a.times(b).wf(),
        a.over(b).wf(),
        a.negated().wf(),
        a.absolute()@ >= 0,
        a.root()@ >= 0,
{
    reveal(mul_raw);
    reveal(div_raw);
    if a@ > 0 {
        lemma_sqrt_raw_bounds(a@);
    }
}

} // verus!
