//! Three-dimensional vectors over fixed-point numbers.

use crate::fixed::{
    lemma_minus_swapped, lemma_negated_plus, lemma_negated_times,
    lemma_results_wf, lemma_sqrt_raw_bounds, lemma_times_commutative,
    lemma_times_self_nonnegative, magnitude, magnitude_of, saturate, signed_saturated, with_sign,
    Fixed, ONE_RAW,
};
use crate::isqrt::{floor_sqrt, integer_sqrt, is_floor_sqrt, lemma_floor_sqrt_exists};
use crate::unit_norm::{lemma_normalized_is_unit, UNIT_TOLERANCE};
use core::ops::Neg;
use vstd::prelude::*;
use vstd::std_specs::ops::{AddSpecImpl, DivSpecImpl, MulSpecImpl, NegSpecImpl, SubSpecImpl};

verus! {

/// Raw value of a component of a unit vector: the component `c` of a vector
/// whose fine length is `fine`, divided by that length, rounded toward zero
/// and clamped.
pub open spec fn unit_part(c: int, fine: int) -> int {
    saturate(with_sign(c < 0, (magnitude(c) * 0x1_0000_0000_0000_0000) / fine))
}

/// The square of the magnitude of a raw value fits a third of 128 bits.
pub proof fn lemma_square_fits(a: int)
    requires
        0 <= a <= 0x8000_0000_0000_0000,
    ensures
        0 <= a * a <= 0x4000_0000_0000_0000_0000_0000_0000_0000,
{
    assert(0 <= a * a <= 0x8000_0000_0000_0000 * 0x8000_0000_0000_0000) by (nonlinear_arith)
        requires
            0 <= a <= 0x8000_0000_0000_0000,
    ;
}

/// The fine length of a vector that is not zero is at least `2^32`.
pub proof fn lemma_fine_length_positive(sum: int)
    requires
        0 < sum,
    ensures
        sum < 0x1_0000_0000_0000_0000 ==> floor_sqrt(sum * 0x1_0000_0000_0000_0000)
            >= 0x1_0000_0000,
        sum >= 0x1_0000_0000_0000_0000 ==> floor_sqrt(sum) >= 0x1_0000_0000,
{
    let n = if sum < 0x1_0000_0000_0000_0000 {
        sum * 0x1_0000_0000_0000_0000
    } else {
        sum
    };
    lemma_floor_sqrt_exists(n);
    let r = floor_sqrt(n);
    if r < 0x1_0000_0000 {
        assert((r + 1) * (r + 1) <= 0x1_0000_0000 * 0x1_0000_0000) by (nonlinear_arith)
            requires
                0 <= r + 1 <= 0x1_0000_0000,
        ;
    }
}

/// A vector, or a point, in three-dimensional space.
#[derive(Clone, Copy, PartialEq, Eq, Structural, Debug)]
pub struct Vector3 {
    pub x: Fixed,
    pub y: Fixed,
    pub z: Fixed,
}

impl Vector3 {
    /// The zero vector, in contracts.
    pub open spec fn origin() -> Vector3 {
        Vector3 { x: Fixed::of(0), y: Fixed::of(0), z: Fixed::of(0) }
    }

    /// The dot product: the three component products, summed from `x` to `z`.
    pub open spec fn spec_dot(a: &Vector3, b: &Vector3) -> Fixed {
        a.x.times(b.x).plus(a.y.times(b.y)).plus(a.z.times(b.z))
    }

    /// The right-handed cross product.
    pub open spec fn spec_cross(a: &Vector3, b: &Vector3) -> Vector3 {
        Vector3 {
            x: a.y.times(b.z).minus(a.z.times(b.y)),
            y: a.z.times(b.x).minus(a.x.times(b.z)),
            z: a.x.times(b.y).minus(a.y.times(b.x)),
        }
    }

    /// The Euclidean length: the root of the dot product with itself.
    pub open spec fn spec_length(&self) -> Fixed {
        Vector3::spec_dot(self, self).root()
    }

    /// The exact sum of the squares of the raw components.
    pub open spec fn square_sum(&self) -> int {
        self.x@ * self.x@ + self.y@ * self.y@ + self.z@ * self.z@
    }

    /// The length of the vector in units of `2^-64`, taken from the exact sum
    /// of the squares and rounded down to one part in `2^32` or better.
    pub open spec fn fine_length(&self) -> int {
        if self.square_sum() < 0x1_0000_0000_0000_0000 {
            floor_sqrt(self.square_sum() * 0x1_0000_0000_0000_0000)
        } else {
            floor_sqrt(self.square_sum()) * 0x1_0000_0000
        }
    }

    /// The vector of unit length that points the same way: each component
    /// divided by the fine length and rounded toward zero. The zero vector
    /// has no direction and yields the zero vector.
    pub open spec fn spec_normalized(&self) -> Vector3 {
        if self.square_sum() == 0 {
            Vector3::origin()
        } else {
            Vector3 {
                x: Fixed::of(unit_part(self.x@, self.fine_length())),
                y: Fixed::of(unit_part(self.y@, self.fine_length())),
                z: Fixed::of(unit_part(self.z@, self.fine_length())),
            }
        }
    }

    /// Every component lies in the symmetric range.
    pub open spec fn wf(self) -> bool {
        self.x.wf() && self.y.wf() && self.z.wf()
    }

    /// The vector pointing the opposite way.
    pub open spec fn negated(self) -> Vector3 {
        Vector3 { x: self.x.negated(), y: self.y.negated(), z: self.z.negated() }
    }

    /// The component-wise sum.
    pub open spec fn plus(self, other: Vector3) -> Vector3 {
        Vector3 { x: self.x.plus(other.x), y: self.y.plus(other.y), z: self.z.plus(other.z) }
    }

    /// The component-wise difference.
    pub open spec fn minus(self, other: Vector3) -> Vector3 {
        Vector3 { x: self.x.minus(other.x), y: self.y.minus(other.y), z: self.z.minus(other.z) }
    }

    /// The component-wise product.
    pub open spec fn times(self, other: Vector3) -> Vector3 {
        Vector3 { x: self.x.times(other.x), y: self.y.times(other.y), z: self.z.times(other.z) }
    }

    /// The component-wise quotient.
    pub open spec fn over(self, other: Vector3) -> Vector3 {
        Vector3 { x: self.x.over(other.x), y: self.y.over(other.y), z: self.z.over(other.z) }
    }

    /// Each component increased by `other`.
    pub open spec fn plus_scalar(self, other: Fixed) -> Vector3 {
        Vector3 { x: self.x.plus(other), y: self.y.plus(other), z: self.z.plus(other) }
    }

    /// Each component decreased by `other`.
    pub open spec fn minus_scalar(self, other: Fixed) -> Vector3 {
        Vector3 { x: self.x.minus(other), y: self.y.minus(other), z: self.z.minus(other) }
    }

    /// Each component multiplied by `other`.
    pub open spec fn scaled(self, other: Fixed) -> Vector3 {
        Vector3 { x: self.x.times(other), y: self.y.times(other), z: self.z.times(other) }
    }

    /// Each component divided by `other`.
    pub open spec fn divided(self, other: Fixed) -> Vector3 {
        Vector3 { x: self.x.over(other), y: self.y.over(other), z: self.z.over(other) }
    }

    /// `other` increased by each component.
    pub open spec fn added_to(self, other: Fixed) -> Vector3 {
        Vector3 { x: other.plus(self.x), y: other.plus(self.y), z: other.plus(self.z) }
    }

    /// `other` decreased by each component.
    pub open spec fn subtracted_from(self, other: Fixed) -> Vector3 {
        Vector3 { x: other.minus(self.x), y: other.minus(self.y), z: other.minus(self.z) }
    }

    /// `other` multiplied by each component.
    pub open spec fn scaling(self, other: Fixed) -> Vector3 {
        Vector3 { x: other.times(self.x), y: other.times(self.y), z: other.times(self.z) }
    }

    /// `other` divided by each component.
    pub open spec fn dividing(self, other: Fixed) -> Vector3 {
        Vector3 { x: other.over(self.x), y: other.over(self.y), z: other.over(self.z) }
    }

    /// The vector with the given components.
    pub fn new(x: Fixed, y: Fixed, z: Fixed) -> (r: Self)
        ensures
            r == (Vector3 { x, y, z }),
    {
        Self { x, y, z }
    }

    /// The dot product of two vectors.
    #[verifier::when_used_as_spec(spec_dot)]
    pub fn dot(a: &Vector3, b: &Vector3) -> (r: Fixed)
        ensures
            r == Vector3::spec_dot(a, b),
    {
        a.x * b.x + a.y * b.y + a.z * b.z
    }

    /// The right-handed cross product of two vectors.
    #[verifier::when_used_as_spec(spec_cross)]
    pub fn cross(a: &Vector3, b: &Vector3) -> (r: Vector3)
        ensures
            r == Vector3::spec_cross(a, b),
    {
        Vector3 {
            x: a.y * b.z - a.z * b.y,
            y: a.z * b.x - a.x * b.z,
            z: a.x * b.y - a.y * b.x,
        }
    }

    /// The Euclidean length.
    #[verifier::when_used_as_spec(spec_length)]
    pub fn length(&self) -> (r: Fixed)
        ensures
            r == self.spec_length(),
    {
        Vector3::dot(self, self).sqrt()
    }

    /// The exact sum of the squares of the raw components, in units of
    /// `2^-64`.
    pub fn exact_square_sum(&self) -> (sum: u128)
        ensures
            sum == self.square_sum(),
            sum <= 0xc000_0000_0000_0000_0000_0000_0000_0000,
    {
        let ax: u128 = magnitude_of(self.x.raw);
        let ay: u128 = magnitude_of(self.y.raw);
        let az: u128 = magnitude_of(self.z.raw);
        proof {
            lemma_square_fits(ax as int);
            lemma_square_fits(ay as int);
            lemma_square_fits(az as int);
            assert(ax * ax == self.x@ * self.x@) by (nonlinear_arith)
                requires
                    ax == magnitude(self.x@),
            ;
            assert(ay * ay == self.y@ * self.y@) by (nonlinear_arith)
                requires
                    ay == magnitude(self.y@),
            ;
            assert(az * az == self.z@ * self.z@) by (nonlinear_arith)
                requires
                    az == magnitude(self.z@),
            ;
        }
        ax * ax + ay * ay + az * az
    }

    /// The vector scaled to unit length. The zero vector has no direction and
    /// yields the zero vector.
    #[verifier::when_used_as_spec(spec_normalized)]
    pub fn normalized(&self) -> (r: Self)
        ensures
            r == self.spec_normalized(),
            *self == Vector3::origin() ==> r == Vector3::origin(),
            *self != Vector3::origin() ==> ONE_RAW - UNIT_TOLERANCE <= r.spec_length()@ <= ONE_RAW,
    {
        proof {
            lemma_normalized_zero(*self);
            if *self != Vector3::origin() {
                assert(self.x@ != 0 || self.y@ != 0 || self.z@ != 0);
                lemma_normalized_is_unit(*self);
            }
        }
        let ax: u128 = magnitude_of(self.x.raw);
        let ay: u128 = magnitude_of(self.y.raw);
        let az: u128 = magnitude_of(self.z.raw);
        let sum: u128 = self.exact_square_sum();
        if sum == 0 {
            return Vector3::new(Fixed::zero(), Fixed::zero(), Fixed::zero());
        }
        let fine: u128 = if sum < 0x1_0000_0000_0000_0000 {
            integer_sqrt(sum * 0x1_0000_0000_0000_0000) as u128
        } else {
            (integer_sqrt(sum) as u128) * 0x1_0000_0000
        };
        proof {
            lemma_fine_length_positive(sum as int);
        }
        Vector3 {
            x: Fixed { raw: signed_saturated(self.x.raw < 0, (ax * 0x1_0000_0000_0000_0000) / fine) },
            y: Fixed { raw: signed_saturated(self.y.raw < 0, (ay * 0x1_0000_0000_0000_0000) / fine) },
            z: Fixed { raw: signed_saturated(self.z.raw < 0, (az * 0x1_0000_0000_0000_0000) / fine) },
        }
    }

    /// Adds `other` to the vector, component by component.
    pub fn add_assign(&mut self, other: Vector3)
        ensures
            *final(self) == old(self).plus(other),
    {
        self.x = self.x + other.x;
        self.y = self.y + other.y;
        self.z = self.z + other.z;
    }

    /// Adds `other` to each component.
    pub fn add_assign_scalar(&mut self, other: Fixed)
        ensures
            *final(self) == old(self).plus_scalar(other),
    {
        self.x = self.x + other;
        self.y = self.y + other;
        self.z = self.z + other;
    }

    /// Subtracts `other` from the vector, component by component.
    pub fn sub_assign(&mut self, other: Vector3)
        ensures
            *final(self) == old(self).minus(other),
    {
        self.x = self.x - other.x;
        self.y = self.y - other.y;
        self.z = self.z - other.z;
    }

    /// Subtracts `other` from each component.
    pub fn sub_assign_scalar(&mut self, other: Fixed)
        ensures
            *final(self) == old(self).minus_scalar(other),
    {
        self.x = self.x - other;
        self.y = self.y - other;
        self.z = self.z - other;
    }

    /// Multiplies the vector by `other`, component by component.
    pub fn mul_assign(&mut self, other: Vector3)
        ensures
            *final(self) == old(self).times(other),
    {
        self.x = self.x * other.x;
        self.y = self.y * other.y;
        self.z = self.z * other.z;
    }

    /// Multiplies each component by `other`.
    pub fn mul_assign_scalar(&mut self, other: Fixed)
        ensures
            *final(self) == old(self).scaled(other),
    {
        self.x = self.x * other;
        self.y = self.y * other;
        self.z = self.z * other;
    }

    /// Divides the vector by `other`, component by component.
    pub fn div_assign(&mut self, other: Vector3)
        ensures
            *final(self) == old(self).over(other),
    {
        self.x = self.x / other.x;
        self.y = self.y / other.y;
        self.z = self.z / other.z;
    }

    /// Divides each component by `other`.
    pub fn div_assign_scalar(&mut self, other: Fixed)
        ensures
            *final(self) == old(self).divided(other),
    {
        self.x = self.x / other;
        self.y = self.y / other;
        self.z = self.z / other;
    }
}

impl core::ops::Neg for Vector3 {
    type Output = Vector3;

    fn neg(self) -> (r: Vector3)
        ensures
            r == self.negated(),
    {
        Vector3 { x: self.x.neg(), y: self.y.neg(), z: self.z.neg() }
    }
}

impl NegSpecImpl for Vector3 {
    open spec fn obeys_neg_spec() -> bool {
        true
    }

    open spec fn neg_req(self) -> bool {
        true
    }

    open spec fn neg_spec(self) -> Vector3 {
        self.negated()
    }
}

impl core::ops::Add<Vector3> for Vector3 {
    type Output = Vector3;

    fn add(self, other: Vector3) -> (r: Vector3)
        ensures
            r == self.plus(other),
    {
        Vector3 { x: self.x + other.x, y: self.y + other.y, z: self.z + other.z }
    }
}

impl AddSpecImpl<Vector3> for Vector3 {
    open spec fn obeys_add_spec() -> bool {
        true
    }

    open spec fn add_req(self, other: Vector3) -> bool {
        true
    }

    open spec fn add_spec(self, other: Vector3) -> Vector3 {
        self.plus(other)
    }
}

impl core::ops::Add<Vector3> for Fixed {
    type Output = Vector3;

    fn add(self, other: Vector3) -> (r: Vector3)
        ensures
            r == other.added_to(self),
    {
        Vector3 { x: self + other.x, y: self + other.y, z: self + other.z }
    }
}

impl AddSpecImpl<Vector3> for Fixed {
    open spec fn obeys_add_spec() -> bool {
        true
    }

    open spec fn add_req(self, other: Vector3) -> bool {
        true
    }

    open spec fn add_spec(self, other: Vector3) -> Vector3 {
        other.added_to(self)
    }
}

impl core::ops::Add<Fixed> for Vector3 {
    type Output = Vector3;

    fn add(self, other: Fixed) -> (r: Vector3)
        ensures
            r == self.plus_scalar(other),
    {
        Vector3 { x: self.x + other, y: self.y + other, z: self.z + other }
    }
}

impl AddSpecImpl<Fixed> for Vector3 {
    open spec fn obeys_add_spec() -> bool {
        true
    }

    open spec fn add_req(self, other: Fixed) -> bool {
        true
    }

    open spec fn add_spec(self, other: Fixed) -> Vector3 {
        self.plus_scalar(other)
    }
}

impl core::ops::Sub<Vector3> for Vector3 {
    type Output = Vector3;

    fn sub(self, other: Vector3) -> (r: Vector3)
        ensures
            r == self.minus(other),
    {
        Vector3 { x: self.x - other.x, y: self.y - other.y, z: self.z - other.z }
    }
}

impl SubSpecImpl<Vector3> for Vector3 {
    open spec fn obeys_sub_spec() -> bool {
        true
    }

    open spec fn sub_req(self, other: Vector3) -> bool {
        true
    }

    open spec fn sub_spec(self, other: Vector3) -> Vector3 {
        self.minus(other)
    }
}

impl core::ops::Sub<Vector3> for Fixed {
    type Output = Vector3;

    fn sub(self, other: Vector3) -> (r: Vector3)
        ensures
            r == other.subtracted_from(self),
    {
        Vector3 { x: self - other.x, y: self - other.y, z: self - other.z }
    }
}

impl SubSpecImpl<Vector3> for Fixed {
    open spec fn obeys_sub_spec() -> bool {
        true
    }

    open spec fn sub_req(self, other: Vector3) -> bool {
        true
    }

    open spec fn sub_spec(self, other: Vector3) -> Vector3 {
        other.subtracted_from(self)
    }
}

impl core::ops::Sub<Fixed> for Vector3 {
    type Output = Vector3;

    fn sub(self, other: Fixed) -> (r: Vector3)
        ensures
            r == self.minus_scalar(other),
    {
        Vector3 { x: self.x - other, y: self.y - other, z: self.z - other }
    }
}

impl SubSpecImpl<Fixed> for Vector3 {
    open spec fn obeys_sub_spec() -> bool {
        true
    }

    open spec fn sub_req(self, other: Fixed) -> bool {
        true
    }

    open spec fn sub_spec(self, other: Fixed) -> Vector3 {
        self.minus_scalar(other)
    }
}

impl core::ops::Mul<Vector3> for Vector3 {
    type Output = Vector3;

    fn mul(self, other: Vector3) -> (r: Vector3)
        ensures
            r == self.times(other),
    {
        Vector3 { x: self.x * other.x, y: self.y * other.y, z: self.z * other.z }
    }
}

impl MulSpecImpl<Vector3> for Vector3 {
    open spec fn obeys_mul_spec() -> bool {
        true
    }

    open spec fn mul_req(self, other: Vector3) -> bool {
        true
    }

    open spec fn mul_spec(self, other: Vector3) -> Vector3 {
        self.times(other)
    }
}

impl core::ops::Mul<Vector3> for Fixed {
    type Output = Vector3;

    fn mul(self, other: Vector3) -> (r: Vector3)
        ensures
            r == other.scaling(self),
    {
        Vector3 { x: self * other.x, y: self * other.y, z: self * other.z }
    }
}

impl MulSpecImpl<Vector3> for Fixed {
    open spec fn obeys_mul_spec() -> bool {
        true
    }

    open spec fn mul_req(self, other: Vector3) -> bool {
        true
    }

    open spec fn mul_spec(self, other: Vector3) -> Vector3 {
        other.scaling(self)
    }
}

impl core::ops::Mul<Fixed> for Vector3 {
    type Output = Vector3;

    fn mul(self, other: Fixed) -> (r: Vector3)
        ensures
            r == self.scaled(other),
    {
        Vector3 { x: self.x * other, y: self.y * other, z: self.z * other }
    }
}

impl MulSpecImpl<Fixed> for Vector3 {
    open spec fn obeys_mul_spec() -> bool {
        true
    }

    open spec fn mul_req(self, other: Fixed) -> bool {
        true
    }

    open spec fn mul_spec(self, other: Fixed) -> Vector3 {
        self.scaled(other)
    }
}

impl core::ops::Div<Vector3> for Vector3 {
    type Output = Vector3;

    fn div(self, other: Vector3) -> (r: Vector3)
        ensures
            r == self.over(other),
    {
        Vector3 { x: self.x / other.x, y: self.y / other.y, z: self.z / other.z }
    }
}

impl DivSpecImpl<Vector3> for Vector3 {
    open spec fn obeys_div_spec() -> bool {
        true
    }

    open spec fn div_req(self, other: Vector3) -> bool {
        true
    }

    open spec fn div_spec(self, other: Vector3) -> Vector3 {
        self.over(other)
    }
}

impl core::ops::Div<Vector3> for Fixed {
    type Output = Vector3;

    fn div(self, other: Vector3) -> (r: Vector3)
        ensures
            r == other.dividing(self),
    {
        Vector3 { x: self / other.x, y: self / other.y, z: self / other.z }
    }
}

impl DivSpecImpl<Vector3> for Fixed {
    open spec fn obeys_div_spec() -> bool {
        true
    }

    open spec fn div_req(self, other: Vector3) -> bool {
        true
    }

    open spec fn div_spec(self, other: Vector3) -> Vector3 {
        other.dividing(self)
    }
}

impl core::ops::Div<Fixed> for Vector3 {
    type Output = Vector3;

    fn div(self, other: Fixed) -> (r: Vector3)
        ensures
            r == self.divided(other),
    {
        Vector3 { x: self.x / other, y: self.y / other, z: self.z / other }
    }
}

impl DivSpecImpl<Fixed> for Vector3 {
    open spec fn obeys_div_spec() -> bool {
        true
    }

    open spec fn div_req(self, other: Fixed) -> bool {
        true
    }

    open spec fn div_spec(self, other: Fixed) -> Vector3 {
        self.divided(other)
    }
}

/// Turning a vector around negates its dot product with any other vector.
pub proof fn lemma_dot_negated(a: Vector3, b: Vector3)
    requires
        a.wf(),
    ensures
        Vector3::spec_dot(&a.negated(), &b) == Vector3::spec_dot(&a, &b).negated(),
{
    lemma_negated_times(a.x, b.x);
    lemma_negated_times(a.y, b.y);
    lemma_negated_times(a.z, b.z);
    let px = a.x.times(b.x);
    let py = a.y.times(b.y);
    let pz = a.z.times(b.z);
    lemma_results_wf(a.x, b.x);
    lemma_results_wf(a.y, b.y);
    lemma_results_wf(a.z, b.z);
    lemma_negated_plus(px, py);
    lemma_results_wf(px, py);
    lemma_negated_plus(px.plus(py), pz);
}

/// The components of a normalized vector lie in the symmetric range.
pub proof fn lemma_normalized_wf(a: Vector3)
    ensures
        a.spec_normalized().wf(),
{
}

/// The cross product changes its sign when its operands are swapped:
/// `cross(a, b) == -cross(b, a)`.
pub proof fn lemma_cross_antisymmetric(a: Vector3, b: Vector3)
    ensures
        Vector3::spec_cross(&a, &b) == Vector3::spec_cross(&b, &a).negated(),
{
    lemma_times_commutative(a.y, b.z);
    lemma_times_commutative(a.z, b.y);
    lemma_times_commutative(a.z, b.x);
    lemma_times_commutative(a.x, b.z);
    lemma_times_commutative(a.x, b.y);
    lemma_times_commutative(a.y, b.x);
    lemma_minus_swapped(a.y.times(b.z), a.z.times(b.y));
    lemma_minus_swapped(a.z.times(b.x), a.x.times(b.z));
    lemma_minus_swapped(a.x.times(b.y), a.y.times(b.x));
}

/// The dot product does not depend on the order of its operands:
/// `dot(a, b) == dot(b, a)`.
pub proof fn lemma_dot_commutative(a: Vector3, b: Vector3)
    ensures
        Vector3::spec_dot(&a, &b) == Vector3::spec_dot(&b, &a),
{
    lemma_times_commutative(a.x, b.x);
    lemma_times_commutative(a.y, b.y);
    lemma_times_commutative(a.z, b.z);
}

/// The dot product of a vector with itself is the square of its length:
/// it is never negative, and the length is its square root, rounded down to
/// a multiple of `2^-32`.
pub proof fn lemma_dot_self_is_length_squared(a: Vector3)
    ensures
        Vector3::spec_dot(&a, &a)@ >= 0,
        is_floor_sqrt(Vector3::spec_dot(&a, &a)@ * ONE_RAW, a.spec_length()@),
{
    lemma_times_self_nonnegative(a.x);
    lemma_times_self_nonnegative(a.y);
    lemma_times_self_nonnegative(a.z);
    let d = Vector3::spec_dot(&a, &a);
    lemma_sqrt_raw_bounds(d@);
    if d@ == 0 {
        assert(is_floor_sqrt(0, 0));
    }
}

/// The zero vector is normalized to the zero vector, and no other vector
/// is.
pub proof fn lemma_normalized_zero(a: Vector3)
    ensures
        a == Vector3::origin() ==> a.spec_normalized() == Vector3::origin(),
        a.square_sum() == 0 <==> a.x@ == 0 && a.y@ == 0 && a.z@ == 0,
        a.square_sum() >= 0,
{
    assert(a.x@ * a.x@ >= 0 && a.y@ * a.y@ >= 0 && a.z@ * a.z@ >= 0) by (nonlinear_arith);
    assert(a.x@ != 0 ==> a.x@ * a.x@ > 0) by (nonlinear_arith);
    assert(a.y@ != 0 ==> a.y@ * a.y@ > 0) by (nonlinear_arith);
    assert(a.z@ != 0 ==> a.z@ * a.z@ > 0) by (nonlinear_arith);
    assert(0int * 0int == 0);
}

} // verus!
