//! Surface materials.

use crate::color::Color;
use crate::fixed::Fixed;
use vstd::prelude::*;

verus! {

/// How a surface responds to light: the fraction of incoming light that it
/// scatters back, per channel, and the light that it emits by itself.
#[derive(Clone, Copy, PartialEq, Eq, Structural, Debug)]
pub struct Material {
    pub diffuse_color: Color,
    pub emissive_color: Color,
    pub roughness: Fixed,
}

impl Material {
    /// The material with the given reflectance, emission and roughness.
    pub fn new(diffuse_color: Color, emissive_color: Color, roughness: Fixed) -> (m: Self)
        ensures
            m == (Material { diffuse_color, emissive_color, roughness }),
    {
        Self { diffuse_color, emissive_color, roughness }
    }
}

} // verus!
