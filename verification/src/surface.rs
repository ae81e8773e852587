//! A reported hit lies on the surface of the sphere, up to rounding and up
//! to the deviation of the direction from unit length.

use crate::fixed::{lemma_mul_raw_negated, magnitude, mul_raw, MAX_RAW, ONE_RAW};
use crate::isqrt::{floor_sqrt, lemma_floor_sqrt_exists};
use crate::ray::{Intersectable, Ray};
use crate::sphere::Sphere;
use crate::unit_norm::{lemma_normalized_is_unit, UNIT_TOLERANCE};
use crate::vector::{lemma_normalized_wf, Vector3};
use vstd::prelude::*;

verus! {

/// The product of two bounded numbers is bounded by the product of the
/// bounds.
pub proof fn lemma_product_bound(a: int, b: int, amax: int, bmax: int)
    requires
        -amax <= a <= amax,
        -bmax <= b <= bmax,
    ensures
        -(amax * bmax) <= a * b <= amax * bmax,
{
    assert(-(amax * bmax) <= a * b <= amax * bmax) by (nonlinear_arith)
        requires
            -amax <= a <= amax,
            -bmax <= b <= bmax,
    ;
}

/// One squared component of the vector from the center to the hit point,
/// `h = q - l`, where `q` is the product of the direction `d` with the
/// distance `t`, rounded by `tau`.
pub proof fn lemma_component_square(s: int, l: int, d: int, q: int, tau: int, t: int)
    requires
        q * s == d * t - tau,
    ensures
        (s * s) * ((q - l) * (q - l)) == (t * t) * (d * d) - 2 * ((s * t) * (l * d)) + (s * s) * (l
            * l) - 2 * (s * ((q - l) * tau)) - tau * tau,
{
    let h = q - l;
    let y = d * t - s * l;
    let sh = s * h;
    assert(sh == y - tau) by (nonlinear_arith)
        requires
            sh == s * (q - l),
            q * s == d * t - tau,
            y == d * t - s * l,
    ;
    assert(y * y == sh * sh + 2 * (sh * tau) + tau * tau) by (nonlinear_arith)
        requires
            y == sh + tau,
    ;
    assert(sh * sh == (s * s) * (h * h)) by (nonlinear_arith)
        requires
            sh == s * h,
    ;
    assert(sh * tau == s * (h * tau)) by (nonlinear_arith)
        requires
            sh == s * h,
    ;
    let u = d * t;
    let v = s * l;
    assert(y * y == u * u - 2 * (u * v) + v * v) by (nonlinear_arith)
        requires
            y == u - v,
    ;
    assert(u * u == (t * t) * (d * d)) by (nonlinear_arith)
        requires
            u == d * t,
    ;
    assert(v * v == (s * s) * (l * l)) by (nonlinear_arith)
        requires
            v == s * l,
    ;
    assert(u * v == (s * t) * (l * d)) by (nonlinear_arith)
        requires
            u == d * t,
            v == s * l,
    ;
}

/// The largest difference, in units of `2^-64` and multiplied by `2^64`,
/// between the squared distance of a hit from the center and the squared
/// radius: for the half chord `thc`, the distance `t` along the ray, a bound
/// `reach` on the components of the vector from the center to the hit, and
/// the deviation `excess` of the squared length of the direction from one.
pub open spec fn surface_slack(s: int, thc: int, t: int, reach: int, excess: int) -> int {
    (s * s) * (2 * thc + 6 * t + 6 * reach + 4) + excess * (t * t)
}

/// Four bounded terms, combined.
proof fn lemma_four_terms(
    a: int,
    b: int,
    c: int,
    e: int,
    amax: int,
    bmax: int,
    cmax: int,
    emax: int,
)
    requires
        -amax <= a <= 0,
        -bmax <= b <= bmax,
        -cmax <= c <= cmax,
        -emax <= e <= emax,
    ensures
        -(amax + bmax + cmax + emax) <= a + b - c - e <= amax + bmax + cmax + emax,
{
}

/// The squared distance of the hit point from the center against the
/// squared radius `rr`, from the equations that the rounded products obey.
pub proof fn lemma_surface_sum(
    s: int,
    l: (int, int, int),
    d: (int, int, int),
    q: (int, int, int),
    tau: (int, int, int),
    tca: int,
    k: int,
    thc: int,
    rho: int,
    reach: int,
    excess: int,
    rr: int,
)
    requires
        0 < s,
        q.0 * s == d.0 * (tca + k) - tau.0,
        q.1 * s == d.1 * (tca + k) - tau.1,
        q.2 * s == d.2 * (tca + k) - tau.2,
        -s < tau.0 < s && -s < tau.1 < s && -s < tau.2 < s,
        tca * s == l.0 * d.0 + l.1 * d.1 + l.2 * d.2 - rho,
        -(3 * s) < rho < 3 * s,
        0 <= tca + k,
        0 <= thc,
        k == thc || k == -thc,
        -excess <= d.0 * d.0 + d.1 * d.1 + d.2 * d.2 - s * s <= excess,
        -reach <= q.0 - l.0 <= reach,
        -reach <= q.1 - l.1 <= reach,
        -reach <= q.2 - l.2 <= reach,
        thc * thc <= rr + tca * tca - (l.0 * l.0 + l.1 * l.1 + l.2 * l.2) < (thc + 1) * (thc + 1),
    ensures
        -surface_slack(s, thc, tca + k, reach, excess) <= (s * s) * ((q.0 - l.0) * (q.0 - l.0) + (
        q.1 - l.1) * (q.1 - l.1) + (q.2 - l.2) * (q.2 - l.2) - rr) <= surface_slack(
            s,
            thc,
            tca + k,
            reach,
            excess,
        ),
{
    let ss = s * s;
    let t = tca + k;
    let tt = t * t;
    let st = s * t;
    let h = (q.0 - l.0, q.1 - l.1, q.2 - l.2);
    let h0 = h.0 * h.0;
    let h1 = h.1 * h.1;
    let h2 = h.2 * h.2;
    let hs = h0 + h1 + h2;
    let aa = l.0 * l.0 + l.1 * l.1 + l.2 * l.2;
    let dd = d.0 * d.0 + d.1 * d.1 + d.2 * d.2;
    let b = l.0 * d.0 + l.1 * d.1 + l.2 * d.2;
    let delta = dd - ss;
    lemma_component_square(s, l.0, d.0, q.0, tau.0, t);
    lemma_component_square(s, l.1, d.1, q.1, tau.1, t);
    lemma_component_square(s, l.2, d.2, q.2, tau.2, t);
    let r0 = 2 * (s * (h.0 * tau.0)) + tau.0 * tau.0;
    let r1 = 2 * (s * (h.1 * tau.1)) + tau.1 * tau.1;
    let r2 = 2 * (s * (h.2 * tau.2)) + tau.2 * tau.2;
    assert(ss * hs == ss * h0 + ss * h1 + ss * h2) by (nonlinear_arith)
        requires
            hs == h0 + h1 + h2,
    ;
    assert(tt * dd == tt * (d.0 * d.0) + tt * (d.1 * d.1) + tt * (d.2 * d.2)) by (nonlinear_arith)
        requires
            dd == d.0 * d.0 + d.1 * d.1 + d.2 * d.2,
    ;
    assert(st * b == st * (l.0 * d.0) + st * (l.1 * d.1) + st * (l.2 * d.2)) by (nonlinear_arith)
        requires
            b == l.0 * d.0 + l.1 * d.1 + l.2 * d.2,
    ;
    assert(ss * aa == ss * (l.0 * l.0) + ss * (l.1 * l.1) + ss * (l.2 * l.2)) by (nonlinear_arith)
        requires
            aa == l.0 * l.0 + l.1 * l.1 + l.2 * l.2,
    ;
    assert(ss * hs == tt * dd - 2 * (st * b) + ss * aa - r0 - r1 - r2);
    // t^2 D - 2 s t B + s^2 A, with D = s^2 + delta and B = tca s + rho
    let srho = s * rho;
    assert(tt * dd == ss * tt + delta * tt) by (nonlinear_arith)
        requires
            dd == ss + delta,
    ;
    assert(st * b == ss * (t * tca) + t * srho) by (nonlinear_arith)
        requires
            st == s * t,
            b == tca * s + rho,
            ss == s * s,
            srho == s * rho,
    ;
    let kk = k * k;
    assert(tt - 2 * (t * tca) == kk - tca * tca) by (nonlinear_arith)
        requires
            t == tca + k,
            tt == t * t,
            kk == k * k,
    ;
    assert(kk == thc * thc) by (nonlinear_arith)
        requires
            k == thc || k == -thc,
            kk == k * k,
    ;
    let chord = rr + tca * tca - aa;
    let short = kk - chord;
    assert((thc + 1) * (thc + 1) == thc * thc + 2 * thc + 1) by (nonlinear_arith);
    assert(-(2 * thc + 1) <= short <= 0);
    assert(ss * tt - 2 * (ss * (t * tca)) + ss * aa - ss * rr == ss * short) by (nonlinear_arith)
        requires
            tt - 2 * (t * tca) == kk - tca * tca,
            short == kk - (rr + tca * tca - aa),
    ;
    let first = ss * short;
    let second = delta * tt;
    let third = 2 * (t * srho);
    let fourth = r0 + r1 + r2;
    assert(ss * (hs - rr) == first + second - third - fourth) by (nonlinear_arith)
        requires
            ss * hs == tt * dd - 2 * (st * b) + ss * aa - r0 - r1 - r2,
            tt * dd == ss * tt + delta * tt,
            st * b == ss * (t * tca) + t * srho,
            ss * tt - 2 * (ss * (t * tca)) + ss * aa - ss * rr == first,
            second == delta * tt,
            third == 2 * (t * srho),
            fourth == r0 + r1 + r2,
    ;
    // bounds
    assert(ss > 0 && tt >= 0) by (nonlinear_arith)
        requires
            ss == s * s,
            tt == t * t,
            s > 0,
    ;
    lemma_product_bound(ss, short, ss, 2 * thc + 1);
    assert(first <= 0) by (nonlinear_arith)
        requires
            first == ss * short,
            ss > 0,
            short <= 0,
    ;
    lemma_product_bound(delta, tt, excess, tt);
    lemma_product_bound(s, rho, s, 3 * s);
    lemma_product_bound(t, srho, t, s * (3 * s));
    lemma_product_bound(h.0, tau.0, reach, s);
    lemma_product_bound(h.1, tau.1, reach, s);
    lemma_product_bound(h.2, tau.2, reach, s);
    lemma_product_bound(s, h.0 * tau.0, s, reach * s);
    lemma_product_bound(s, h.1 * tau.1, s, reach * s);
    lemma_product_bound(s, h.2 * tau.2, s, reach * s);
    lemma_product_bound(tau.0, tau.0, s, s);
    lemma_product_bound(tau.1, tau.1, s, s);
    lemma_product_bound(tau.2, tau.2, s, s);
    assert(s * (reach * s) == ss * reach && t * (s * (3 * s)) == 3 * (ss * t) && ss * (2 * thc + 1)
        == 2 * (ss * thc) + ss) by (nonlinear_arith)
        requires
            ss == s * s,
    ;
    assert(surface_slack(s, thc, t, reach, excess) == 2 * (ss * thc) + 6 * (ss * t) + 6 * (ss
        * reach) + 4 * ss + excess * tt) by (nonlinear_arith)
        requires
            ss == s * s,
            tt == t * t,
            surface_slack(s, thc, t, reach, excess) == ss * (2 * thc + 6 * t + 6 * reach + 4)
                + excess * tt,
    ;
    lemma_four_terms(
        first,
        second,
        third,
        fourth,
        2 * (ss * thc) + ss,
        excess * tt,
        6 * (ss * t),
        6 * (ss * reach) + 3 * ss,
    );
}

/// Largest raw magnitude of a coordinate of the center and of the origin
/// for which the law of the surface is stated: the raw value of `2^24`.
pub const COORDINATE_BOUND: i64 = 0x100_0000_0000_0000;

/// Largest raw radius for which the law of the surface is stated: the raw
/// value of `2^28`.
pub const RADIUS_BOUND: i64 = 0x1000_0000_0000_0000;

/// Every component of the vector has a raw magnitude of at most `bound`.
pub open spec fn within(v: Vector3, bound: int) -> bool {
    &&& -bound <= v.x@ <= bound
    &&& -bound <= v.y@ <= bound
    &&& -bound <= v.z@ <= bound
}

/// The deviation of the squared length of a direction from one, in units of
/// `2^-64`.
pub open spec fn direction_excess(d: Vector3) -> int {
    magnitude(d.square_sum() - 0x1_0000_0000_0000_0000)
}

/// The exact squared distance between two points, in units of `2^-64`.
pub open spec fn squared_distance(a: Vector3, b: Vector3) -> int {
    (a.x@ - b.x@) * (a.x@ - b.x@) + (a.y@ - b.y@) * (a.y@ - b.y@) + (a.z@ - b.z@) * (a.z@ - b.z@)
}

/// The largest raw magnitude among the components of the vector from `b`
/// to `a`.
pub open spec fn largest_offset(a: Vector3, b: Vector3) -> int {
    let x = magnitude(a.x@ - b.x@);
    let y = magnitude(a.y@ - b.y@);
    let z = magnitude(a.z@ - b.z@);
    if x >= y && x >= z {
        x
    } else if y >= z {
        y
    } else {
        z
    }
}

/// The hit point lies on the surface of the sphere, up to rounding and up
/// to the deviation of the direction from unit length: the exact squared
/// distance of `point` from the center differs from the exact squared
/// radius, in units of `2^-64` and multiplied by `2^64`, by at most the
/// surface slack. In value, with `e` for `2^-32`, the two differ by at most
/// `e (2 thc + 6 t + 6 reach + 4 e) + excess t^2`, where `thc` is the half
/// chord, `t` the distance of the hit along the ray, `reach` the largest
/// component of the vector from the center to the hit, and `excess` the
/// deviation of the squared length of the direction from one.
pub open spec fn near_surface(sphere: Sphere, ray: Ray, point: Vector3) -> bool {
    let slack = surface_slack(
        ONE_RAW as int,
        sphere.half_chord(&ray)@,
        sphere.hit_distance(&ray)->Some_0@,
        largest_offset(point, sphere.position),
        direction_excess(ray.direction),
    );
    let gap = squared_distance(point, sphere.position) - sphere.radius@ * sphere.radius@;
    -slack <= 0x1_0000_0000_0000_0000 * gap <= slack
}

/// The sphere and the ray lie within the bounds for which the law of the
/// surface is stated: center and origin within `COORDINATE_BOUND`, a radius
/// of at least zero within `RADIUS_BOUND`, and a direction whose components
/// lie between minus one and one.
pub open spec fn in_surface_bounds(sphere: Sphere, ray: Ray) -> bool {
    &&& within(sphere.position, COORDINATE_BOUND as int)
    &&& within(ray.origin, COORDINATE_BOUND as int)
    &&& within(ray.direction, ONE_RAW as int)
    &&& 0 <= sphere.radius@ <= RADIUS_BOUND
}

/// A product that was not clamped differs from the exact product by less
/// than one raw unit.
pub proof fn lemma_product_rounding(a: int, b: int)
    requires
        -MAX_RAW < mul_raw(a, b) < MAX_RAW,
    ensures
        -ONE_RAW < a * b - mul_raw(a, b) * ONE_RAW < ONE_RAW,
{
    reveal(mul_raw);
    let m = magnitude(a) * magnitude(b);
    assert(m >= 0) by (nonlinear_arith)
        requires
            m == magnitude(a) * magnitude(b),
    ;
    assert(m == a * b || m == -(a * b)) by (nonlinear_arith)
        requires
            m == magnitude(a) * magnitude(b),
    ;
    assert((a < 0) != (b < 0) ==> a * b <= 0) by (nonlinear_arith);
    assert((a < 0) == (b < 0) ==> a * b >= 0) by (nonlinear_arith);
}

/// The product with a number between minus one and one is no larger in
/// magnitude than the other factor.
pub proof fn lemma_product_with_fraction(a: int, b: int)
    requires
        -ONE_RAW <= b <= ONE_RAW,
    ensures
        -magnitude(a) <= mul_raw(a, b) <= magnitude(a),
        -magnitude(a) <= mul_raw(b, a) <= magnitude(a),
{
    reveal(mul_raw);
    let m = magnitude(a) * magnitude(b);
    assert(0 <= m <= magnitude(a) * ONE_RAW) by (nonlinear_arith)
        requires
            m == magnitude(a) * magnitude(b),
            0 <= magnitude(b) <= ONE_RAW,
            0 <= magnitude(a),
    ;
    assert(magnitude(b) * magnitude(a) == m) by (nonlinear_arith)
        requires
            m == magnitude(a) * magnitude(b),
    ;
}

/// The half chord of a hit within the bounds is the exact rounded-down root
/// of its square, which nothing clamps.
proof fn lemma_half_chord(chord: int, rr: int, tt: int)
    requires
        0 <= chord <= rr + tt,
        0 <= rr <= 0x100_0000_0000_0000_0000_0000_0000_0000,
        0 <= tt <= 0x100_0000_0000_0000_0000_0000_0000_0000,
    ensures
        0 <= floor_sqrt(chord) < 0x2000_0000_0000_0000,
        floor_sqrt(chord) * floor_sqrt(chord) <= chord < (floor_sqrt(chord) + 1) * (floor_sqrt(
            chord,
        ) + 1),
{
    lemma_floor_sqrt_exists(chord);
    let r = floor_sqrt(chord);
    if r >= 0x2000_0000_0000_0000 {
        assert(r * r >= 0x2000_0000_0000_0000 * 0x2000_0000_0000_0000) by (nonlinear_arith)
            requires
                r >= 0x2000_0000_0000_0000,
        ;
    }
}

/// The square of a number within a bound is within the square of the bound.
proof fn lemma_square_within(a: int, bound: int)
    requires
        -bound <= a <= bound,
    ensures
        0 <= a * a <= bound * bound,
{
    assert(0 <= a * a <= bound * bound) by (nonlinear_arith)
        requires
            -bound <= a <= bound,
    ;
}

/// A reported hit lies on the surface of the sphere, up to rounding and up
/// to the deviation of the direction from unit length, for a sphere and a
/// ray within the bounds of the law.
pub proof fn lemma_hit_on_surface(sphere: Sphere, ray: Ray)
    requires
        in_surface_bounds(sphere, ray),
        sphere.nearest(&ray) is Some,
    ensures
        near_surface(sphere, ray, sphere.nearest(&ray)->Some_0.position),
{
    let s = ONE_RAW as int;
    let c = sphere.position;
    let o = ray.origin;
    let d = ray.direction;
    let r = sphere.radius@;
    let rr = r * r;
    let l = (c.x@ - o.x@, c.y@ - o.y@, c.z@ - o.z@);
    let dv = (d.x@, d.y@, d.z@);
    let lv = sphere.to_center(&ray);
    assert(lv.x@ == l.0 && lv.y@ == l.1 && lv.z@ == l.2);
    // the projection
    lemma_product_with_fraction(l.0, dv.0);
    lemma_product_with_fraction(l.1, dv.1);
    lemma_product_with_fraction(l.2, dv.2);
    lemma_product_rounding(l.0, dv.0);
    lemma_product_rounding(l.1, dv.1);
    lemma_product_rounding(l.2, dv.2);
    let tca = sphere.projection(&ray)@;
    assert(tca == mul_raw(l.0, dv.0) + mul_raw(l.1, dv.1) + mul_raw(l.2, dv.2));
    let rho = l.0 * dv.0 + l.1 * dv.1 + l.2 * dv.2 - tca * s;
    assert(0 <= tca <= 0x600_0000_0000_0000);
    // the half chord
    let aa = l.0 * l.0 + l.1 * l.1 + l.2 * l.2;
    assert(lv.square_sum() == aa);
    let chord = sphere.chord_squared(&ray);
    assert(chord == rr + tca * tca - aa);
    assert(chord >= 0);
    lemma_square_within(r, RADIUS_BOUND as int);
    lemma_square_within(tca, 0x600_0000_0000_0000);
    lemma_square_within(l.0, 0x200_0000_0000_0000);
    lemma_square_within(l.1, 0x200_0000_0000_0000);
    lemma_square_within(l.2, 0x200_0000_0000_0000);
    lemma_half_chord(chord, rr, tca * tca);
    let thc = sphere.half_chord(&ray)@;
    assert(thc == floor_sqrt(chord));
    // the distance along the ray and the hit point
    let t = sphere.hit_distance(&ray)->Some_0@;
    let k = t - tca;
    assert(k == thc || k == -thc);
    assert(0 <= t);
    lemma_product_with_fraction(t, dv.0);
    lemma_product_with_fraction(t, dv.1);
    lemma_product_with_fraction(t, dv.2);
    lemma_product_rounding(dv.0, t);
    lemma_product_rounding(dv.1, t);
    lemma_product_rounding(dv.2, t);
    let q = (mul_raw(dv.0, t), mul_raw(dv.1, t), mul_raw(dv.2, t));
    let tau = (dv.0 * t - q.0 * s, dv.1 * t - q.1 * s, dv.2 * t - q.2 * s);
    let hit = sphere.nearest(&ray)->Some_0;
    assert(hit.position.x@ == o.x@ + q.0 && hit.position.y@ == o.y@ + q.1 && hit.position.z@
        == o.z@ + q.2);
    assert(squared_distance(hit.position, c) == (q.0 - l.0) * (q.0 - l.0) + (q.1 - l.1) * (q.1
        - l.1) + (q.2 - l.2) * (q.2 - l.2));
    assert(s * s == 0x1_0000_0000_0000_0000);
    assert(d.square_sum() == dv.0 * dv.0 + dv.1 * dv.1 + dv.2 * dv.2);
    let reach = largest_offset(hit.position, c);
    let excess = direction_excess(d);
    lemma_surface_sum(s, l, dv, q, tau, tca, k, thc, rho, reach, excess, rr);
}

/// Turning a vector around does not change its length.
pub proof fn lemma_negated_length(n: Vector3)
    requires
        n.wf(),
    ensures
        n.negated().spec_length() == n.spec_length(),
{
    lemma_mul_raw_negated(n.x@, n.x@);
    lemma_mul_raw_negated(n.y@, n.y@);
    lemma_mul_raw_negated(n.z@, n.z@);
    lemma_mul_raw_negated(-n.x@, n.x@);
    lemma_mul_raw_negated(-n.y@, n.y@);
    lemma_mul_raw_negated(-n.z@, n.z@);
}

/// The normal of a reported hit has unit length: where the hit point is not
/// the center itself, the length of the normal is at most one and falls
/// short of one by at most `UNIT_TOLERANCE` raw units.
pub proof fn lemma_hit_normal_is_unit(sphere: Sphere, ray: Ray)
    requires
        sphere.nearest(&ray) is Some,
        sphere.nearest(&ray)->Some_0.position.minus(sphere.position) != Vector3::origin(),
    ensures
        ONE_RAW - UNIT_TOLERANCE <= sphere.nearest(&ray)->Some_0.normal.spec_length()@ <= ONE_RAW,
{
    let hit = sphere.nearest(&ray)->Some_0;
    let out = hit.position.minus(sphere.position);
    lemma_normalized_is_unit(out);
    lemma_normalized_wf(out);
    lemma_negated_length(out.spec_normalized());
}

} // verus!
