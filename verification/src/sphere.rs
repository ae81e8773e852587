//! Spheres and their intersection with rays.

use crate::fixed::{magnitude, magnitude_of, saturate, signed_saturated, Fixed};
use crate::isqrt::{floor_sqrt, integer_sqrt};
use crate::hit::Hit;
use crate::material::Material;
use crate::ray::{Intersectable, Ray};
use crate::surface::{in_surface_bounds, lemma_hit_on_surface, near_surface};
use crate::vector::{lemma_dot_negated, lemma_normalized_wf, lemma_square_fits, Vector3};
use core::ops::Neg;
use vstd::prelude::*;

verus! {

/// A sphere with a material. A radius below zero is not expected; a radius
/// of zero leaves a single point.
#[derive(Clone, Copy, PartialEq, Eq, Structural, Debug)]
pub struct Sphere {
    pub position: Vector3,
    pub radius: Fixed,
    pub material: Material,
}

/// The two candidate distances `t0` and `t1`, smaller first.
pub open spec fn ordered(t0: Fixed, t1: Fixed) -> (Fixed, Fixed) {
    if t0@ > t1@ {
        (t1, t0)
    } else {
        (t0, t1)
    }
}

/// The nearer candidate where it lies ahead of the origin, else the farther
/// one where that lies ahead, else nothing.
pub open spec fn first_ahead(near: Fixed, far: Fixed) -> Option<Fixed> {
    if near@ >= 0 {
        Some(near)
    } else if far@ >= 0 {
        Some(far)
    } else {
        None
    }
}

/// `normal`, turned around if it points along `direction`.
pub open spec fn facing(normal: Vector3, direction: Vector3) -> Vector3 {
    if Vector3::spec_dot(&normal, &direction)@ > 0 {
        normal.negated()
    } else {
        normal
    }
}

impl Sphere {
    /// The vector from the origin of `ray` to the center.
    pub open spec fn to_center(&self, ray: &Ray) -> Vector3 {
        self.position.minus(ray.origin)
    }

    /// The distance along `ray` at which it passes closest to the center.
    pub open spec fn projection(&self, ray: &Ray) -> Fixed {
        Vector3::spec_dot(&self.to_center(ray), &ray.direction)
    }

    /// The squared distance between the center and the line of `ray`, for a
    /// direction of unit length: the squared length of the vector to the
    /// center less the square of the projection, exact, in units of `2^-64`.
    pub open spec fn offset_squared(&self, ray: &Ray) -> int {
        self.to_center(ray).square_sum() - self.projection(ray)@ * self.projection(ray)@
    }

    /// The square of half the chord that the line of `ray` cuts: the squared
    /// radius less the squared offset, exact, in units of `2^-64`.
    pub open spec fn chord_squared(&self, ray: &Ray) -> int {
        self.radius@ * self.radius@ - self.offset_squared(ray)
    }

    /// Half the length of the chord that the line of `ray` cuts: the root of
    /// its square, rounded down and clamped.
    pub open spec fn half_chord(&self, ray: &Ray) -> Fixed {
        Fixed::of(saturate(floor_sqrt(self.chord_squared(ray))))
    }

    /// The distance along `ray` to the sphere. There is none where the center
    /// projects behind the origin of the ray, even if that origin lies inside
    /// the sphere, and none where the squared offset exceeds the squared
    /// radius.
    pub open spec fn hit_distance(&self, ray: &Ray) -> Option<Fixed> {
        if self.projection(ray)@ < 0 {
            None
        } else if self.offset_squared(ray) > self.radius@ * self.radius@ {
            None
        } else {
            let t0 = self.projection(ray).minus(self.half_chord(ray));
            let t1 = self.projection(ray).plus(self.half_chord(ray));
            first_ahead(ordered(t0, t1).0, ordered(t0, t1).1)
        }
    }

    /// The hit record for the distance `t` along `ray`.
    pub open spec fn hit_at(&self, ray: &Ray, t: Fixed) -> Hit {
        let point = ray.origin.plus(ray.direction.scaled(t));
        Hit {
            position: point,
            normal: facing(point.minus(self.position).spec_normalized(), ray.direction),
            material: self.material,
            distance: t,
        }
    }

    /// The sphere with the given center, radius and material.
    pub fn new(position: Vector3, radius: Fixed, material: Material) -> (s: Self)
        ensures
            s == (Sphere { position, radius, material }),
    {
        Self { position, radius, material }
    }
}

impl Intersectable for Sphere {
    open spec fn nearest(&self, ray: &Ray) -> Option<Hit> {
        match self.hit_distance(ray) {
            Some(t) => Some(self.hit_at(ray, t)),
            None => None,
        }
    }

    /// Intersects `ray` with the sphere. There is no hit exactly where the
    /// center projects behind the origin or the squared offset exceeds the
    /// squared radius. A reported hit lies at a distance of at least zero, on
    /// the ray, and carries the material of the sphere. Within the bounds of
    /// the law of the surface it lies on the surface, up to rounding and up
    /// to the deviation of the direction from unit length.
    fn intersect(&self, ray: &Ray) -> (hit: Option<Hit>)
        ensures
            self.projection(ray)@ < 0 ==> hit is None,
            hit matches Some(h) ==> h.distance@ >= 0 && h.material == self.material && h.position
                == ray.origin.plus(ray.direction.scaled(h.distance)),
            hit is None <==> self.projection(ray)@ < 0 || self.offset_squared(ray) > self.radius@
                * self.radius@,
            hit matches Some(h) ==> (in_surface_bounds(*self, *ray) ==> near_surface(
                *self,
                *ray,
                h.position,
            )),
    {
        let l = self.position - ray.origin;

        let tca = Vector3::dot(&l, &ray.direction);

        if tca.raw < 0 {
            return None;
        }
        let squared_length: u128 = l.exact_square_sum();
        let projection: u128 = magnitude_of(tca.raw);
        let radius: u128 = magnitude_of(self.radius.raw);
        proof {
            lemma_square_fits(projection as int);
            lemma_square_fits(radius as int);
            assert(projection * projection == tca@ * tca@) by (nonlinear_arith)
                requires
                    projection == magnitude(tca@),
            ;
            assert(radius * radius == self.radius@ * self.radius@) by (nonlinear_arith)
                requires
                    radius == magnitude(self.radius@),
            ;
        }
        // d2 > radius^2, with d2 = dot(l, l) - tca^2 taken exactly
        let reach: u128 = projection * projection + radius * radius;
        if squared_length > reach {
            return None;
        }
        let thc = Fixed { raw: signed_saturated(false, integer_sqrt(reach - squared_length) as u128) };

        let mut t0 = tca - thc;
        let mut t1 = tca + thc;

        if t0.raw > t1.raw {
            let tmp = t0;
            t0 = t1;
            t1 = tmp;
        }
        if t0.raw < 0 {
            t0 = t1;
            if t0.raw < 0 {
                return None;
            }
        }
        let t = t0;

        let hit_point = ray.origin + (ray.direction * t);
        let mut normal = (hit_point - self.position).normalized();
        if Vector3::dot(&normal, &ray.direction).raw > 0 {
            proof {
                lemma_normalized_wf(hit_point.minus(self.position));
                lemma_dot_negated(normal, ray.direction);
            }
            normal = normal.neg();
        }
        proof {
            if in_surface_bounds(*self, *ray) {
                lemma_hit_on_surface(*self, *ray);
            }
        }
        Some(Hit::new(hit_point, normal, self.material, t))
    }
}

} // verus!
