//! Intersection records.

use crate::fixed::Fixed;
use crate::material::Material;
use crate::vector::Vector3;
use vstd::prelude::*;

verus! {

/// Where a ray met a surface: the point, the surface normal there, the
/// material of the surface, and the distance travelled along the ray.
#[derive(Clone, Copy, PartialEq, Eq, Structural, Debug)]
pub struct Hit {
    pub position: Vector3,
    pub normal: Vector3,
    pub material: Material,
    pub distance: Fixed,
}

impl Hit {
    /// The record with the given fields.
    pub fn new(position: Vector3, normal: Vector3, material: Material, distance: Fixed) -> (h: Self)
        ensures
            h == (Hit { position, normal, material, distance }),
    {
        Self { position, normal, material, distance }
    }
}

} // verus!
