//! The path-tracing integrator: a Monte-Carlo estimate of the light that
//! arrives along a ray, found by following a random walk from surface to
//! surface until Russian roulette ends it.

use crate::color::Color;
use crate::fixed::{
    lemma_mul_raw_one, lemma_mul_raw_zero, lemma_rescale_round_trip, unit_raw, Fixed, ONE_RAW,
};
use crate::hit::Hit;
use crate::random::next_bits;
use crate::ray::{Intersectable, Ray};
use crate::scene::{all_miss, closest_hit, get_closest_hit, lemma_closest_none, Surfaces};
use crate::unit_norm::{lemma_normalized_is_unit, UNIT_TOLERANCE};
use crate::vector::Vector3;
use rand::rngs::StdRng;
use vstd::prelude::*;

verus! {

/// The number of bounces after which Russian roulette sets in.
pub const BOUNCE_THRESHOLD: u64 = 5;

/// The depth at which every path ends.
pub const DEPTH_CAP: u64 = 500;

/// Raw representation of a tenth, rounded down.
pub const TENTH_RAW: i64 = 0x1999_9999;

/// What Russian roulette leaves of the reflectance `diffuse` at `depth`, for
/// the random draw `bits`. Up to the bounce threshold the path goes on with
/// the reflectance as it is. Beyond it the path survives with the
/// probability `p` of the largest channel, and only below the depth cap; the
/// reflectance of a surviving path is divided by `p`.
pub open spec fn spec_roulette(diffuse: Color, depth: int, bits: u64) -> Option<Color> {
    if depth <= BOUNCE_THRESHOLD {
        Some(diffuse)
    } else if unit_raw(bits as int) < diffuse.spec_max_component()@ && depth < DEPTH_CAP {
        Some(diffuse.divided(diffuse.spec_max_component()))
    } else {
        None
    }
}

/// The axis from which the frame around the normal `w` is built, chosen so
/// that it is not parallel to `w`: the `y` axis where `w` leans along `x` by
/// more than a tenth, else the `x` axis.
pub open spec fn spec_helper_axis(w: Vector3) -> Vector3 {
    if w.x.absolute()@ > TENTH_RAW {
        Vector3 { x: Fixed::of(0), y: Fixed::of(ONE_RAW as int), z: Fixed::of(0) }
    } else {
        Vector3 { x: Fixed::of(ONE_RAW as int), y: Fixed::of(0), z: Fixed::of(0) }
    }
}

/// The direction in the hemisphere around the normal `w` that the two draws
/// select: with `r1` the azimuth in turns, `r2` the radius parameter and the
/// frame `u = normalize(helper x w)`, `v = w x u`, the vector
/// `u cos(r1) sqrt(r2) + v sin(r1) sqrt(r2) + w sqrt(1 - r2)`.
pub open spec fn spec_scatter_direction(w: Vector3, azimuth_bits: u64, radius_bits: u64) -> Vector3 {
    let r1 = Fixed::of(unit_raw(azimuth_bits as int));
    let r2 = Fixed::of(unit_raw(radius_bits as int));
    let u = Vector3::spec_cross(&spec_helper_axis(w), &w).spec_normalized();
    let v = Vector3::spec_cross(&w, &u);
    u.scaled(r1.spec_cos_turns()).scaled(r2.root()).plus(
        v.scaled(r1.spec_sin_turns()).scaled(r2.root()),
    ).plus(w.scaled(Fixed::of(ONE_RAW as int).minus(r2).root()))
}

/// The number of draws that the roulette takes at `depth`.
pub open spec fn roulette_draws(depth: int) -> int {
    if depth > BOUNCE_THRESHOLD {
        1
    } else {
        0
    }
}

/// The draw at position `i`, or zero past the end.
pub open spec fn draw_at(draws: Seq<u64>, i: int) -> u64 {
    if 0 <= i < draws.len() {
        draws[i]
    } else {
        0
    }
}

/// The draws that are left when the first `n` are taken.
pub open spec fn draws_after(draws: Seq<u64>, n: int) -> Seq<u64> {
    if 0 <= n <= draws.len() {
        draws.skip(n)
    } else {
        Seq::empty()
    }
}

/// The number of further bounces that a path at `depth` can take.
pub open spec fn remaining_depth(depth: int) -> nat {
    if depth < DEPTH_CAP {
        (DEPTH_CAP - depth) as nat
    } else {
        0
    }
}

/// The ray that leaves the surface at `hit` for the two draws.
pub open spec fn scattered_ray(hit: Hit, azimuth_bits: u64, radius_bits: u64) -> Ray {
    Ray {
        origin: hit.position,
        direction: spec_scatter_direction(hit.normal, azimuth_bits, radius_bits).spec_normalized(),
    }
}

/// The light that arrives against `ray`, which has bounced `depth` times,
/// for the random draws `draws` taken in order, a draw that is missing
/// counting as zero: black where the ray meets nothing; the emission of the
/// surface where roulette ends the path; else the emission plus the
/// surviving reflectance times the light that arrives against the scattered
/// ray.
pub open spec fn radiance(objects: Surfaces, ray: Ray, depth: int, draws: Seq<u64>) -> Color
    decreases remaining_depth(depth),
{
    match closest_hit(objects, ray) {
        None => Color::spec_black(),
        Some(hit) => match spec_roulette(hit.material.diffuse_color, depth, draw_at(draws, 0)) {
            None => hit.material.emissive_color,
            Some(weight) => {
                let used = roulette_draws(depth);
                let next = scattered_ray(hit, draw_at(draws, used), draw_at(draws, used + 1));
                hit.material.emissive_color.plus(
                    weight.times(radiance(objects, next, depth + 1, draws_after(draws, used + 2))),
                )
            },
        },
    }
}

/// `color` is the light that arrives against `ray` for some sequence of
/// random draws.
pub open spec fn is_radiance(objects: Surfaces, ray: Ray, depth: int, color: Color) -> bool {
    exists|draws: Seq<u64>| color == radiance(objects, ray, depth, draws)
}

/// No light arrives along a ray that meets nothing, whatever the depth and
/// the draws: an empty scene is black.
pub proof fn lemma_miss_is_black(objects: Surfaces, ray: Ray, depth: int, draws: Seq<u64>)
    requires
        all_miss(objects, ray),
    ensures
        radiance(objects, ray, depth, draws) == Color::spec_black(),
{
    lemma_closest_none(objects, ray);
}

/// A surface that scatters nothing shows its own light: where the closest
/// hit of a ray has a reflectance of zero in red, green and blue, the light
/// against the ray is, in these channels, the emission of that surface,
/// whatever the depth and the draws.
pub proof fn lemma_emitter_shows_emission(objects: Surfaces, ray: Ray, depth: int, draws: Seq<u64>)
    requires
        closest_hit(objects, ray) is Some,
        closest_hit(objects, ray)->Some_0.material.diffuse_color.r@ == 0,
        closest_hit(objects, ray)->Some_0.material.diffuse_color.g@ == 0,
        closest_hit(objects, ray)->Some_0.material.diffuse_color.b@ == 0,
        closest_hit(objects, ray)->Some_0.material.emissive_color.r.wf(),
        closest_hit(objects, ray)->Some_0.material.emissive_color.g.wf(),
        closest_hit(objects, ray)->Some_0.material.emissive_color.b.wf(),
    ensures
        radiance(objects, ray, depth, draws).r == closest_hit(
            objects,
            ray,
        )->Some_0.material.emissive_color.r,
        radiance(objects, ray, depth, draws).g == closest_hit(
            objects,
            ray,
        )->Some_0.material.emissive_color.g,
        radiance(objects, ray, depth, draws).b == closest_hit(
            objects,
            ray,
        )->Some_0.material.emissive_color.b,
{
    let hit = closest_hit(objects, ray)->Some_0;
    match spec_roulette(hit.material.diffuse_color, depth, draw_at(draws, 0)) {
        None => {},
        Some(weight) => {
            let used = roulette_draws(depth);
            let next = scattered_ray(hit, draw_at(draws, used), draw_at(draws, used + 1));
            let incoming = radiance(objects, next, depth + 1, draws_after(draws, used + 2));
            assert(depth <= BOUNCE_THRESHOLD) by {
                if depth > BOUNCE_THRESHOLD {
                    assert(unit_raw(draw_at(draws, 0) as int) >= 0);
                }
            }
            lemma_mul_raw_zero(incoming.r@);
            lemma_mul_raw_zero(incoming.g@);
            lemma_mul_raw_zero(incoming.b@);
        },
    }
}

/// Russian roulette keeps the expected reflectance. A path survives with the
/// probability `p` of the largest channel, and `p` times the reflectance of
/// the surviving path is, in red, green and blue, the reflectance before the
/// roulette less at most one raw unit of rounding; the largest channel of
/// the surviving reflectance is exactly one. This holds for a reflectance
/// whose channels lie between zero and one.
pub proof fn lemma_roulette_keeps_expectation(diffuse: Color, depth: int, bits: u64)
    requires
        depth > BOUNCE_THRESHOLD,
        spec_roulette(diffuse, depth, bits) is Some,
        0 <= diffuse.r@,
        0 <= diffuse.g@,
        0 <= diffuse.b@,
        diffuse.spec_max_component()@ <= ONE_RAW,
    ensures
        ({
            let p = diffuse.spec_max_component();
            let survivor = spec_roulette(diffuse, depth, bits)->Some_0;
            &&& diffuse.r@ - 1 <= p.times(survivor.r)@ <= diffuse.r@
            &&& diffuse.g@ - 1 <= p.times(survivor.g)@ <= diffuse.g@
            &&& diffuse.b@ - 1 <= p.times(survivor.b)@ <= diffuse.b@
            &&& survivor.spec_max_component()@ == ONE_RAW
        }),
{
    let p = diffuse.spec_max_component();
    assert(unit_raw(bits as int) >= 0);
    lemma_rescale_round_trip(diffuse.r@, p@);
    lemma_rescale_round_trip(diffuse.g@, p@);
    lemma_rescale_round_trip(diffuse.b@, p@);
    lemma_rescale_round_trip(p@, p@);
}

/// The helper axis is not parallel to the normal: for a vector `w` whose
/// components lie in the symmetric range and are not all within a tenth of
/// zero, a unit normal among them, the cross product of the helper axis with
/// `w` has a component of more than a tenth in magnitude.
pub proof fn lemma_helper_not_parallel(w: Vector3)
    requires
        w.wf(),
        w.x.absolute()@ > TENTH_RAW || w.y.absolute()@ > TENTH_RAW || w.z.absolute()@ > TENTH_RAW,
    ensures
        ({
            let c = Vector3::spec_cross(&spec_helper_axis(w), &w);
            c.x.absolute()@ > TENTH_RAW || c.y.absolute()@ > TENTH_RAW || c.z.absolute()@
                > TENTH_RAW
        }),
{
    lemma_mul_raw_zero(w.x@);
    lemma_mul_raw_zero(w.y@);
    lemma_mul_raw_zero(w.z@);
    lemma_mul_raw_one(w.x@);
    lemma_mul_raw_one(w.y@);
    lemma_mul_raw_one(w.z@);
}

/// The frame around the normal does not collapse: for a normal `w` as in
/// `lemma_helper_not_parallel`, the first axis of the frame, the normalized
/// cross product of the helper axis with `w`, has unit length up to
/// `UNIT_TOLERANCE` raw units.
pub proof fn lemma_frame_is_unit(w: Vector3)
    requires
        w.wf(),
        w.x.absolute()@ > TENTH_RAW || w.y.absolute()@ > TENTH_RAW || w.z.absolute()@ > TENTH_RAW,
    ensures
        ONE_RAW - UNIT_TOLERANCE <= Vector3::spec_cross(
            &spec_helper_axis(w),
            &w,
        ).spec_normalized().spec_length()@ <= ONE_RAW,
{
    lemma_helper_not_parallel(w);
    lemma_normalized_is_unit(Vector3::spec_cross(&spec_helper_axis(w), &w));
}

/// The scattered ray leaves the hit point along a direction of unit length:
/// wherever the sampled direction is not zero, the length of the direction
/// of the scattered ray is at most one and falls short of one by at most
/// `UNIT_TOLERANCE` raw units.
pub proof fn lemma_scattered_ray_is_unit(hit: Hit, azimuth_bits: u64, radius_bits: u64)
    requires
        spec_scatter_direction(hit.normal, azimuth_bits, radius_bits).x@ != 0
            || spec_scatter_direction(hit.normal, azimuth_bits, radius_bits).y@ != 0
            || spec_scatter_direction(hit.normal, azimuth_bits, radius_bits).z@ != 0,
    ensures
        scattered_ray(hit, azimuth_bits, radius_bits).origin == hit.position,
        ONE_RAW - UNIT_TOLERANCE <= scattered_ray(
            hit,
            azimuth_bits,
            radius_bits,
        ).direction.spec_length()@ <= ONE_RAW,
{
    lemma_normalized_is_unit(spec_scatter_direction(hit.normal, azimuth_bits, radius_bits));
}

/// A path ends at the depth cap at the latest: from there on a ray gathers
/// the emission of the surface that it meets, and nothing else.
pub proof fn lemma_depth_cap(objects: Surfaces, ray: Ray, depth: int, draws: Seq<u64>)
    requires
        depth >= DEPTH_CAP,
        closest_hit(objects, ray) is Some,
    ensures
        radiance(objects, ray, depth, draws) == closest_hit(
            objects,
            ray,
        )->Some_0.material.emissive_color,
{
}

/// Applies Russian roulette to the reflectance of a surface.
pub fn roulette(diffuse: Color, depth: u64, bits: u64) -> (weight: Option<Color>)
    ensures
        weight == spec_roulette(diffuse, depth as int, bits),
{
    if depth <= BOUNCE_THRESHOLD {
        return Some(diffuse);
    }
    let rand = Fixed::from_unit_bits(bits);
    let max_component = diffuse.max_component();
    if rand.raw < max_component.raw && depth < DEPTH_CAP {
        Some(diffuse / max_component)
    } else {
        None
    }
}

/// Picks the axis from which the frame around a normal is built.
pub fn helper_axis(w: &Vector3) -> (axis: Vector3)
    ensures
        axis == spec_helper_axis(*w),
{
    if w.x.abs().raw > TENTH_RAW {
        Vector3::new(Fixed::zero(), Fixed::one(), Fixed::zero())
    } else {
        Vector3::new(Fixed::one(), Fixed::zero(), Fixed::zero())
    }
}

/// Samples a direction in the hemisphere around the normal `w`, weighted by
/// the cosine of its angle to the normal, from two uniform draws.
pub fn scatter_direction(w: &Vector3, azimuth_bits: u64, radius_bits: u64) -> (direction: Vector3)
    ensures
        direction == spec_scatter_direction(*w, azimuth_bits, radius_bits),
{
    let r1 = Fixed::from_unit_bits(azimuth_bits);
    let r2 = Fixed::from_unit_bits(radius_bits);
    let r2s = r2.sqrt();

    let tmp = helper_axis(w);
    let u = Vector3::cross(&tmp, w).normalized();
    let v = Vector3::cross(w, &u);

    u * r1.cos_turns() * r2s + v * r1.sin_turns() * r2s + *w * (Fixed::one() - r2).sqrt()
}

/// Follows the path that the draws from position `start` on select.
fn follow_path(
    ray: &Ray,
    objects: &Vec<Box<dyn Intersectable>>,
    draws: &Vec<u64>,
    start: usize,
    depth: u64,
) -> (color: Color)
    requires
        start <= draws.len(),
    ensures
        color == radiance(objects@, *ray, depth as int, draws@.skip(start as int)),
    decreases remaining_depth(depth as int),
{
    let ghost left = draws@.skip(start as int);
    match get_closest_hit(ray, objects) {
        Some(hit) => {
            let taken: usize = if depth > BOUNCE_THRESHOLD {
                1
            } else {
                0
            };
            let available: usize = draws.len() - start;
            let first: u64 = if available > 0 {
                draws[start]
            } else {
                0
            };
            assert(first == draw_at(left, 0));
            match roulette(hit.material.diffuse_color, depth, first) {
                Some(weight) => {
                    let azimuth_bits: u64 = if taken < available {
                        draws[start + taken]
                    } else {
                        0
                    };
                    let radius_bits: u64 = if taken + 1 < available {
                        draws[start + taken + 1]
                    } else {
                        0
                    };
                    assert(azimuth_bits == draw_at(left, taken as int));
                    assert(radius_bits == draw_at(left, taken + 1));
                    let new_dir = scatter_direction(&hit.normal, azimuth_bits, radius_bits);
                    let new_ray = Ray::new(hit.position, new_dir.normalized());
                    let next: usize = if taken + 2 <= available {
                        start + taken + 2
                    } else {
                        draws.len()
                    };
                    assert(draws@.skip(next as int) =~= draws_after(left, taken + 2));
                    let incoming = follow_path(&new_ray, objects, draws, next, depth + 1);
                    hit.material.emissive_color + weight * incoming
                },
                None => hit.material.emissive_color,
            }
        },
        None => Color::black(),
    }
}

/// Computes the light that arrives against `ray`, which has bounced `depth`
/// times, along the one path that the given draws select. A draw that is
/// missing counts as zero.
pub fn get_ray_color_for(
    ray: &Ray,
    objects: &Vec<Box<dyn Intersectable>>,
    draws: &Vec<u64>,
    depth: u64,
) -> (color: Color)
    ensures
        color == radiance(objects@, *ray, depth as int, draws@),
{
    assert(draws@.skip(0) =~= draws@);
    follow_path(ray, objects, draws, 0, depth)
}

/// Estimates the light that arrives against `ray`, which has bounced `depth`
/// times, by following one random path through the scene.
pub fn get_ray_color(
    ray: &Ray,
    objects: &Vec<Box<dyn Intersectable>>,
    rng: &mut StdRng,
    depth: u64,
) -> (color: Color)
    ensures
        is_radiance(objects@, *ray, depth as int, color),
        all_miss(objects@, *ray) ==> color == Color::spec_black(),
        all_miss(objects@, *ray) ==> *final(rng) == *old(rng),
    decreases remaining_depth(depth as int),
{
    match get_closest_hit(ray, objects) {
        Some(hit) => {
            let mut weight = hit.material.diffuse_color;
            let ghost mut drawn: Seq<u64> = Seq::empty();

            if depth > BOUNCE_THRESHOLD {
                let bits = next_bits(rng);
                proof {
                    drawn = seq![bits];
                }
                match roulette(weight, depth, bits) {
                    Some(rescaled) => {
                        weight = rescaled;
                    },
                    None => {
                        assert(hit.material.emissive_color == radiance(
                            objects@,
                            *ray,
                            depth as int,
                            drawn,
                        ));
                        return hit.material.emissive_color;
                    },
                }
            }
            assert(Some(weight) == spec_roulette(
                hit.material.diffuse_color,
                depth as int,
                draw_at(drawn, 0),
            ));
            let azimuth_bits = next_bits(rng);
            let radius_bits = next_bits(rng);
            let new_dir = scatter_direction(&hit.normal, azimuth_bits, radius_bits);
            let new_ray = Ray::new(hit.position, new_dir.normalized());

            let incoming = get_ray_color(&new_ray, objects, rng, depth + 1);
            proof {
                let deeper: int = depth + 1;
                let rest = choose|rest: Seq<u64>|
                    incoming == radiance(objects@, new_ray, deeper, rest);
                let used = roulette_draws(depth as int);
                let draws = drawn.push(azimuth_bits).push(radius_bits) + rest;
                assert(draws_after(draws, used + 2) =~= rest);
                assert(Some(weight) == spec_roulette(
                    hit.material.diffuse_color,
                    depth as int,
                    draw_at(draws, 0),
                ));
                assert(draw_at(draws, used) == azimuth_bits);
                assert(draw_at(draws, used + 1) == radius_bits);
                assert(hit.material.emissive_color.plus(weight.times(incoming)) == radiance(
                    objects@,
                    *ray,
                    depth as int,
                    draws,
                ));
            }
            hit.material.emissive_color + weight * incoming
        },
        None => {
            proof {
                assert(Color::spec_black() == radiance(
                    objects@,
                    *ray,
                    depth as int,
                    Seq::<u64>::empty(),
                ));
            }
            Color::black()
        },
    }
}

} // verus!
