//! Rays and the surfaces that they can meet.

use crate::hit::Hit;
use crate::vector::Vector3;
use vstd::prelude::*;

verus! {

/// A half-line: the points `origin + direction * t` for `t >= 0`. The
/// direction is unit length by convention only.
#[derive(Clone, Copy, PartialEq, Eq, Structural, Debug)]
pub struct Ray {
    pub origin: Vector3,
    pub direction: Vector3,
}

impl Ray {
    /// The ray from `origin` along `direction`.
    pub fn new(origin: Vector3, direction: Vector3) -> (r: Self)
        ensures
            r == (Ray { origin, direction }),
    {
        Self { origin, direction }
    }
}

/// A surface that a ray can be tested against.
///
/// `nearest` says what `intersect` computes. An implementation that is not
/// verified still has to provide both and may define the one by the other.
pub trait Intersectable: Send + Sync {
    /// The nearest intersection of `ray` with this surface, if there is one.
    spec fn nearest(&self, ray: &Ray) -> Option<Hit>;

    /// Computes the nearest intersection of `ray` with this surface. The
    /// normal of a reported hit never points along the ray.
    fn intersect(&self, ray: &Ray) -> (hit: Option<Hit>)
        ensures
            hit == self.nearest(ray),
            hit matches Some(h) ==> Vector3::spec_dot(&h.normal, &ray.direction)@ <= 0,
    ;
}

} // verus!
