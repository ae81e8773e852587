//! The camera: an orthonormal frame at a position, and the primary ray
//! through each pixel.

use crate::fixed::{lemma_mul_raw_one, lemma_mul_raw_zero, ratio_raw, Fixed, ONE_RAW};
use crate::scatter::{
    exact_dot, lemma_dot_rounding, lemma_normalized_keeps_angle, lemma_second_axis,
    lemma_signed_proportion,
};
use crate::surface::within;
use crate::ray::Ray;
use crate::unit_norm::{lemma_normalized_is_unit, lemma_normalized_square_sum, UNIT_TOLERANCE};
use crate::vector::{lemma_fine_length_positive, lemma_normalized_zero, Vector3};
use vstd::prelude::*;

verus! {

/// The world's up direction, `(0, 1, 0)`.
pub open spec fn world_up() -> Vector3 {
    Vector3 { x: Fixed::of(0), y: Fixed::of(ONE_RAW as int), z: Fixed::of(0) }
}

/// Raw value of a pixel coordinate mapped from `0 <= index < extent` to the
/// interval from minus one to one: `(index / extent) * 2 - 1`.
pub open spec fn spec_normalized_coordinate(index: u32, extent: u32) -> Fixed {
    Fixed::of(ratio_raw(index as int, extent as int)).times(Fixed::whole(2)).minus(Fixed::whole(1))
}

/// A camera: where it stands, and the three unit vectors that point ahead,
/// to its right and upward.
#[derive(Clone, Copy, PartialEq, Eq, Structural, Debug)]
pub struct Camera {
    pub position: Vector3,
    pub forward: Vector3,
    pub right: Vector3,
    pub up: Vector3,
}

impl Camera {
    /// The camera at `position` that looks along `direction`, in
    /// contracts: `forward` is the direction normalized, `right` the
    /// normalized cross product of the world's up direction with `forward`,
    /// and `up` the normalized cross product of `forward` with `right`.
    pub open spec fn spec_new(position: Vector3, direction: Vector3) -> Camera {
        let forward = direction.spec_normalized();
        let right = Vector3::spec_cross(&world_up(), &forward).spec_normalized();
        let up = Vector3::spec_cross(&forward, &right).spec_normalized();
        Camera { position, forward, right, up }
    }

    /// The ray from the camera through the pixel `(x, y)` of an image of
    /// `width` by `height` pixels, in contracts: with the coordinates
    /// `nx` and `ny` of the pixel between minus one and one, its direction is
    /// `forward + right * (nx * aspect) + up * ny`, normalized, where
    /// `aspect` is `width / height`.
    pub open spec fn spec_primary_ray(&self, x: u32, y: u32, width: u32, height: u32) -> Ray {
        let nx = spec_normalized_coordinate(x, width);
        let ny = spec_normalized_coordinate(y, height);
        let aspect = Fixed::of(ratio_raw(width as int, height as int));
        Ray {
            origin: self.position,
            direction: self.forward.plus(self.right.scaled(nx.times(aspect))).plus(
                self.up.scaled(ny),
            ).spec_normalized(),
        }
    }

    /// The camera at `position` that looks along `direction`.
    #[verifier::when_used_as_spec(spec_new)]
    pub fn new(position: Vector3, direction: Vector3) -> (camera: Camera)
        ensures
            camera == Camera::spec_new(position, direction),
    {
        let forward = direction.normalized();
        let up_axis = Vector3::new(Fixed::zero(), Fixed::one(), Fixed::zero());
        let right = Vector3::cross(&up_axis, &forward).normalized();
        let up = Vector3::cross(&forward, &right).normalized();
        Camera { position, forward, right, up }
    }

    /// The ray from the camera through the pixel `(x, y)` of an image of
    /// `width` by `height` pixels.
    #[verifier::when_used_as_spec(spec_primary_ray)]
    pub fn primary_ray(&self, x: u32, y: u32, width: u32, height: u32) -> (ray: Ray)
        ensures
            ray == self.spec_primary_ray(x, y, width, height),
    {
        let norm_x = normalized_coordinate(x, width);
        let norm_y = normalized_coordinate(y, height);
        let aspect = Fixed::ratio(width, height);
        Ray::new(
            self.position,
            (self.forward + (self.right * (norm_x * aspect)) + (self.up * norm_y)).normalized(),
        )
    }
}

/// Maps the pixel coordinate `index` of `extent` pixels to the interval from
/// minus one to one.
#[verifier::when_used_as_spec(spec_normalized_coordinate)]
pub fn normalized_coordinate(index: u32, extent: u32) -> (c: Fixed)
    ensures
        c == spec_normalized_coordinate(index, extent),
{
    Fixed::ratio(index, extent) * Fixed::from_int(2) - Fixed::one()
}

/// The camera looks along a unit vector: for a direction that is not zero,
/// the length of `forward` is at most one and falls short of one by at most
/// `UNIT_TOLERANCE` raw units.
pub proof fn lemma_forward_is_unit(position: Vector3, direction: Vector3)
    requires
        direction.x@ != 0 || direction.y@ != 0 || direction.z@ != 0,
    ensures
        ONE_RAW - UNIT_TOLERANCE <= Camera::spec_new(position, direction).forward.spec_length()@
            <= ONE_RAW,
{
    lemma_normalized_is_unit(direction);
}

/// Largest raw magnitude of the dot product of two axes of the frame of a
/// camera.
pub const FRAME_TOLERANCE: i64 = 24;

/// The axis to the right of a vector `f` with components between minus one
/// and one, the normalized cross product of the world's up direction with
/// `f`, is at right angles to `f`, up to rounding.
pub proof fn lemma_axis_to_the_right(f: Vector3)
    requires
        within(f, ONE_RAW as int),
    ensures
        ({
            let right = Vector3::spec_cross(&world_up(), &f).spec_normalized();
            &&& within(right, ONE_RAW as int)
            &&& -ONE_RAW <= exact_dot(right, f) <= ONE_RAW
        }),
{
    let c = Vector3::spec_cross(&world_up(), &f);
    let right = c.spec_normalized();
    lemma_mul_raw_zero(f.x@);
    lemma_mul_raw_zero(f.y@);
    lemma_mul_raw_zero(f.z@);
    lemma_mul_raw_one(f.x@);
    lemma_mul_raw_one(f.z@);
    lemma_normalized_zero(c);
    assert(c.x@ == f.z@ && c.y@ == 0 && c.z@ == -f.x@);
    if c.square_sum() > 0 {
        lemma_normalized_square_sum(c);
        lemma_fine_length_positive(c.square_sum());
        assert(right.y@ == 0);
        lemma_signed_proportion(f.z@, f.x@, c.fine_length(), right.x@, -right.z@);
        assert(exact_dot(right, f) == right.x@ * f.x@ - (-right.z@) * f.z@) by (nonlinear_arith)
            requires
                exact_dot(right, f) == right.x@ * f.x@ + right.y@ * f.y@ + right.z@ * f.z@,
                right.y@ == 0,
        ;
    } else {
        assert(exact_dot(right, f) == 0) by (nonlinear_arith)
            requires
                exact_dot(right, f) == right.x@ * f.x@ + right.y@ * f.y@ + right.z@ * f.z@,
                right.x@ == 0,
                right.y@ == 0,
                right.z@ == 0,
        ;
    }
}

/// The frame of a camera is orthonormal, up to rounding. `right` is at
/// right angles to `forward` for every direction, and of unit length where
/// the cross product of the world's up direction with `forward` is not
/// zero. Where the cross product of `forward` with `right` has a squared
/// length of at least a quarter, as it has where the two are of unit
/// length, `up` is of unit length and at right angles to both. Dot products
/// are at most `FRAME_TOLERANCE` raw units in magnitude, lengths fall short
/// of one by at most `UNIT_TOLERANCE` raw units.
pub proof fn lemma_camera_frame(position: Vector3, direction: Vector3)
    ensures
        ({
            let camera = Camera::spec_new(position, direction);
            let side = Vector3::spec_cross(&world_up(), &camera.forward);
            let top = Vector3::spec_cross(&camera.forward, &camera.right);
            &&& -FRAME_TOLERANCE <= Vector3::spec_dot(&camera.right, &camera.forward)@
                <= FRAME_TOLERANCE
            &&& side != Vector3::origin() ==> ONE_RAW - UNIT_TOLERANCE
                <= camera.right.spec_length()@ <= ONE_RAW
            &&& top.square_sum() >= 0x4000_0000_0000_0000 ==> {
                &&& ONE_RAW - UNIT_TOLERANCE <= camera.up.spec_length()@ <= ONE_RAW
                &&& -FRAME_TOLERANCE <= Vector3::spec_dot(&camera.up, &camera.forward)@
                    <= FRAME_TOLERANCE
                &&& -FRAME_TOLERANCE <= Vector3::spec_dot(&camera.up, &camera.right)@
                    <= FRAME_TOLERANCE
            }
        }),
{
    let camera = Camera::spec_new(position, direction);
    let f = camera.forward;
    let right = camera.right;
    let side = Vector3::spec_cross(&world_up(), &f);
    let top = Vector3::spec_cross(&f, &right);
    lemma_normalized_zero(direction);
    if direction.square_sum() > 0 {
        lemma_normalized_square_sum(direction);
    }
    assert(within(f, ONE_RAW as int));
    lemma_axis_to_the_right(f);
    lemma_dot_rounding(right, f);
    lemma_normalized_zero(side);
    if side != Vector3::origin() {
        lemma_normalized_is_unit(side);
    }
    lemma_second_axis(f, right);
    if top.square_sum() >= 0x4000_0000_0000_0000 {
        lemma_normalized_zero(top);
        lemma_normalized_is_unit(top);
        lemma_normalized_keeps_angle(top, f, 6);
        lemma_normalized_keeps_angle(top, right, 6);
        lemma_dot_rounding(camera.up, f);
        lemma_dot_rounding(camera.up, right);
    }
}

} // verus!
