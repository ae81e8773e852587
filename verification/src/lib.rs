//! A stochastic path tracer for scenes of diffuse and emissive spheres,
//! computed entirely in saturating fixed-point arithmetic.

pub mod camera;
pub mod color;
pub mod fixed;
pub mod hit;
pub mod image;
pub mod integrator;
pub mod isqrt;
pub mod material;
pub mod random;
pub mod ray;
pub mod render;
pub mod scatter;
pub mod scene;
pub mod sphere;
pub mod surface;
pub mod trig;
pub mod unit_norm;
pub mod vector;
