//! The sampled direction leaves the surface on the side of the normal, and
//! the axes of a frame stay at right angles to one another, up to rounding.

use crate::fixed::{
    lemma_mul_raw_one, lemma_mul_raw_zero, lemma_quotient_brackets, lemma_sqrt_raw_bounds,
    magnitude, mul_raw, sqrt_raw, unit_raw, Fixed, ONE_RAW,
};
use crate::hit::Hit;
use crate::integrator::{scattered_ray, spec_helper_axis, spec_scatter_direction, TENTH_RAW};
use crate::isqrt::is_floor_sqrt;
use crate::trig::lemma_sine_bounds;
use crate::surface::{
    lemma_product_bound, lemma_product_rounding, lemma_product_with_fraction, within,
};
use crate::unit_norm::{lemma_fine_length, lemma_normalized_square_sum};
use crate::vector::{lemma_fine_length_positive, lemma_normalized_zero, Vector3};
use vstd::prelude::*;

verus! {

/// One component of a vector that was scaled twice, times a component of
/// the normal: `m s = x f - e` and `big s = m g - e2` give `big` in terms of
/// `x`, the two factors and the two roundings.
pub proof fn lemma_scaled_twice(
    s: int,
    x: int,
    f: int,
    g: int,
    m: int,
    big: int,
    e: int,
    e2: int,
    w: int,
)
    requires
        m * s == x * f - e,
        big * s == m * g - e2,
    ensures
        (s * s) * (big * w) == (g * f) * (x * w) - g * (e * w) - s * (e2 * w),
{
    let bs = big * s;
    let ms = m * s;
    assert((s * s) * (big * w) == s * (bs * w)) by (nonlinear_arith)
        requires
            bs == big * s,
    ;
    let mg = m * g;
    assert(bs * w == mg * w - e2 * w) by (nonlinear_arith)
        requires
            bs == mg - e2,
    ;
    assert(s * (bs * w) == s * (mg * w) - s * (e2 * w)) by (nonlinear_arith)
        requires
            bs * w == mg * w - e2 * w,
    ;
    assert(s * (mg * w) == (ms * g) * w) by (nonlinear_arith)
        requires
            mg == m * g,
            ms == m * s,
    ;
    let xf = x * f;
    let msg = ms * g;
    assert(msg == xf * g - e * g) by (nonlinear_arith)
        requires
            msg == ms * g,
            ms == xf - e,
    ;
    assert(msg * w == (xf * g) * w - (e * g) * w) by (nonlinear_arith)
        requires
            msg == xf * g - e * g,
    ;
    assert((xf * g) * w == (g * f) * (x * w)) by (nonlinear_arith)
        requires
            xf == x * f,
    ;
    assert((e * g) * w == g * (e * w)) by (nonlinear_arith);
}

/// The part of the dot product with the normal that a doubly scaled axis of
/// the frame contributes is small where the axis is nearly at right angles
/// to the normal.
pub proof fn lemma_axis_part(
    s: int,
    x: (int, int, int),
    f: int,
    g: int,
    m: (int, int, int),
    big: (int, int, int),
    e: (int, int, int),
    e2: (int, int, int),
    w: (int, int, int),
    skew: int,
)
    requires
        0 < s,
        m.0 * s == x.0 * f - e.0 && m.1 * s == x.1 * f - e.1 && m.2 * s == x.2 * f - e.2,
        big.0 * s == m.0 * g - e2.0 && big.1 * s == m.1 * g - e2.1 && big.2 * s == m.2 * g - e2.2,
        -s < e.0 < s && -s < e.1 < s && -s < e.2 < s,
        -s < e2.0 < s && -s < e2.1 < s && -s < e2.2 < s,
        -s <= w.0 <= s && -s <= w.1 <= s && -s <= w.2 <= s,
        -s <= f <= s,
        -s <= g <= s,
        0 <= skew,
        -(skew * s) <= x.0 * w.0 + x.1 * w.1 + x.2 * w.2 <= skew * s,
    ensures
        -((skew + 6) * (s * (s * s))) <= (s * s) * (big.0 * w.0 + big.1 * w.1 + big.2 * w.2) <= (
        skew + 6) * (s * (s * s)),
{
    let ss = s * s;
    let sss = s * ss;
    assert(ss > 0 && sss > 0) by (nonlinear_arith)
        requires
            ss == s * s,
            sss == s * ss,
            s > 0,
    ;
    lemma_scaled_twice(s, x.0, f, g, m.0, big.0, e.0, e2.0, w.0);
    lemma_scaled_twice(s, x.1, f, g, m.1, big.1, e.1, e2.1, w.1);
    lemma_scaled_twice(s, x.2, f, g, m.2, big.2, e.2, e2.2, w.2);
    let gf = g * f;
    let xw = x.0 * w.0 + x.1 * w.1 + x.2 * w.2;
    let ew = e.0 * w.0 + e.1 * w.1 + e.2 * w.2;
    let e2w = e2.0 * w.0 + e2.1 * w.1 + e2.2 * w.2;
    let bw = big.0 * w.0 + big.1 * w.1 + big.2 * w.2;
    assert(ss * bw == ss * (big.0 * w.0) + ss * (big.1 * w.1) + ss * (big.2 * w.2))
        by (nonlinear_arith)
        requires
            bw == big.0 * w.0 + big.1 * w.1 + big.2 * w.2,
    ;
    assert(gf * xw == gf * (x.0 * w.0) + gf * (x.1 * w.1) + gf * (x.2 * w.2)) by (nonlinear_arith)
        requires
            xw == x.0 * w.0 + x.1 * w.1 + x.2 * w.2,
    ;
    assert(g * ew == g * (e.0 * w.0) + g * (e.1 * w.1) + g * (e.2 * w.2)) by (nonlinear_arith)
        requires
            ew == e.0 * w.0 + e.1 * w.1 + e.2 * w.2,
    ;
    assert(s * e2w == s * (e2.0 * w.0) + s * (e2.1 * w.1) + s * (e2.2 * w.2)) by (nonlinear_arith)
        requires
            e2w == e2.0 * w.0 + e2.1 * w.1 + e2.2 * w.2,
    ;
    assert(ss * bw == gf * xw - g * ew - s * e2w);
    lemma_product_bound(g, f, s, s);
    lemma_product_bound(gf, xw, ss, skew * s);
    lemma_product_bound(e.0, w.0, s, s);
    lemma_product_bound(e.1, w.1, s, s);
    lemma_product_bound(e.2, w.2, s, s);
    lemma_product_bound(e2.0, w.0, s, s);
    lemma_product_bound(e2.1, w.1, s, s);
    lemma_product_bound(e2.2, w.2, s, s);
    lemma_product_bound(g, ew, s, 3 * ss);
    lemma_product_bound(s, e2w, s, 3 * ss);
    assert(ss * (skew * s) == skew * sss && s * (3 * ss) == 3 * sss && (skew + 6) * sss == skew
        * sss + 6 * sss) by (nonlinear_arith)
        requires
            ss == s * s,
            sss == s * ss,
    ;
}

/// Two components that were divided by one length and rounded down stay in
/// proportion, up to rounding: `mp |q| - mq |p|` lies between `-|q|` and
/// `|p|`.
pub proof fn lemma_in_proportion(p: int, q: int, fine: int)
    requires
        0 <= p,
        0 <= q,
        0 < fine,
    ensures
        -q <= ((p * 0x1_0000_0000_0000_0000) / fine) * q - ((q * 0x1_0000_0000_0000_0000) / fine)
            * p <= p,
{
    let w: int = 0x1_0000_0000_0000_0000int;
    let mp = (p * w) / fine;
    let mq = (q * w) / fine;
    lemma_quotient_brackets(p * w, fine);
    lemma_quotient_brackets(q * w, fine);
    let pqw = (p * q) * w;
    let a = mp * q;
    let b = mq * p;
    assert(a * fine <= pqw && pqw <= a * fine + q * fine) by (nonlinear_arith)
        requires
            a == mp * q,
            mp * fine <= p * w,
            p * w < mp * fine + fine,
            pqw == (p * q) * w,
            0 <= q,
    ;
    assert(b * fine <= pqw && pqw <= b * fine + p * fine) by (nonlinear_arith)
        requires
            b == mq * p,
            mq * fine <= q * w,
            q * w < mq * fine + fine,
            pqw == (p * q) * w,
            0 <= p,
    ;
    assert((a - b) * fine == a * fine - b * fine) by (nonlinear_arith);
    if a - b > p {
        assert((a - b) * fine >= (p + 1) * fine) by (nonlinear_arith)
            requires
                a - b >= p + 1,
                fine > 0,
        ;
        assert((p + 1) * fine == p * fine + fine) by (nonlinear_arith);
    }
    if a - b < -q {
        assert((a - b) * fine <= (-q - 1) * fine) by (nonlinear_arith)
            requires
                a - b <= -q - 1,
                fine > 0,
        ;
        assert((-q - 1) * fine == -(q * fine) - fine) by (nonlinear_arith);
    }
}

/// The cross product of a vector with any other is at right angles to it.
pub proof fn lemma_cross_is_orthogonal(w: (int, int, int), u: (int, int, int))
    ensures
        w.0 * (w.1 * u.2 - w.2 * u.1) + w.1 * (w.2 * u.0 - w.0 * u.2) + w.2 * (w.0 * u.1 - w.1
            * u.0) == 0,
{
    assert(w.0 * (w.1 * u.2 - w.2 * u.1) == w.0 * (w.1 * u.2) - w.0 * (w.2 * u.1))
        by (nonlinear_arith);
    assert(w.1 * (w.2 * u.0 - w.0 * u.2) == w.1 * (w.2 * u.0) - w.1 * (w.0 * u.2))
        by (nonlinear_arith);
    assert(w.2 * (w.0 * u.1 - w.1 * u.0) == w.2 * (w.0 * u.1) - w.2 * (w.1 * u.0))
        by (nonlinear_arith);
    assert(w.0 * (w.1 * u.2) == w.1 * (w.0 * u.2)) by (nonlinear_arith);
    assert(w.0 * (w.2 * u.1) == w.2 * (w.0 * u.1)) by (nonlinear_arith);
    assert(w.1 * (w.2 * u.0) == w.2 * (w.1 * u.0)) by (nonlinear_arith);
}

/// The cross product of two vectors is at right angles to the second.
pub proof fn lemma_cross_is_orthogonal_to_second(w: (int, int, int), u: (int, int, int))
    ensures
        u.0 * (w.1 * u.2 - w.2 * u.1) + u.1 * (w.2 * u.0 - w.0 * u.2) + u.2 * (w.0 * u.1 - w.1
            * u.0) == 0,
{
    assert(u.0 * (w.1 * u.2 - w.2 * u.1) == u.0 * (w.1 * u.2) - u.0 * (w.2 * u.1))
        by (nonlinear_arith);
    assert(u.1 * (w.2 * u.0 - w.0 * u.2) == u.1 * (w.2 * u.0) - u.1 * (w.0 * u.2))
        by (nonlinear_arith);
    assert(u.2 * (w.0 * u.1 - w.1 * u.0) == u.2 * (w.0 * u.1) - u.2 * (w.1 * u.0))
        by (nonlinear_arith);
    assert(u.0 * (w.1 * u.2) == u.2 * (w.1 * u.0)) by (nonlinear_arith);
    assert(u.0 * (w.2 * u.1) == u.1 * (w.2 * u.0)) by (nonlinear_arith);
    assert(u.1 * (w.0 * u.2) == u.2 * (w.0 * u.1)) by (nonlinear_arith);
}

/// The part of the dot product with the normal that the normal itself
/// contributes, scaled by `z`, is `z` up to rounding and up to the
/// deviation of the normal from unit length.
pub proof fn lemma_normal_part(
    s: int,
    w: (int, int, int),
    z: int,
    c: (int, int, int),
    gamma: (int, int, int),
)
    requires
        0 < s,
        c.0 * s == w.0 * z - gamma.0 && c.1 * s == w.1 * z - gamma.1 && c.2 * s == w.2 * z
            - gamma.2,
        -s < gamma.0 < s && -s < gamma.1 < s && -s < gamma.2 < s,
        -s <= w.0 <= s && -s <= w.1 <= s && -s <= w.2 <= s,
        0 <= z <= s,
        -(12 * s) <= w.0 * w.0 + w.1 * w.1 + w.2 * w.2 - s * s <= 12 * s,
    ensures
        -(15 * (s * s)) <= s * (c.0 * w.0 + c.1 * w.1 + c.2 * w.2) - z * (s * s) <= 15 * (s * s),
{
    let ss = s * s;
    let n = w.0 * w.0 + w.1 * w.1 + w.2 * w.2;
    let cw = c.0 * w.0 + c.1 * w.1 + c.2 * w.2;
    let gw = gamma.0 * w.0 + gamma.1 * w.1 + gamma.2 * w.2;
    assert(s * (c.0 * w.0) == z * (w.0 * w.0) - gamma.0 * w.0) by (nonlinear_arith)
        requires
            c.0 * s == w.0 * z - gamma.0,
    ;
    assert(s * (c.1 * w.1) == z * (w.1 * w.1) - gamma.1 * w.1) by (nonlinear_arith)
        requires
            c.1 * s == w.1 * z - gamma.1,
    ;
    assert(s * (c.2 * w.2) == z * (w.2 * w.2) - gamma.2 * w.2) by (nonlinear_arith)
        requires
            c.2 * s == w.2 * z - gamma.2,
    ;
    assert(s * cw == s * (c.0 * w.0) + s * (c.1 * w.1) + s * (c.2 * w.2)) by (nonlinear_arith)
        requires
            cw == c.0 * w.0 + c.1 * w.1 + c.2 * w.2,
    ;
    assert(z * n == z * (w.0 * w.0) + z * (w.1 * w.1) + z * (w.2 * w.2)) by (nonlinear_arith)
        requires
            n == w.0 * w.0 + w.1 * w.1 + w.2 * w.2,
    ;
    assert(s * cw == z * n - gw);
    let delta = n - ss;
    assert(z * n == z * ss + z * delta) by (nonlinear_arith)
        requires
            n == ss + delta,
    ;
    lemma_product_bound(z, delta, s, 12 * s);
    lemma_product_bound(gamma.0, w.0, s, s);
    lemma_product_bound(gamma.1, w.1, s, s);
    lemma_product_bound(gamma.2, w.2, s, s);
    assert(s * (12 * s) == 12 * ss) by (nonlinear_arith)
        requires
            ss == s * s,
    ;
}

/// The exact dot product of two vectors, in units of `2^-64`.
pub open spec fn exact_dot(a: Vector3, b: Vector3) -> int {
    a.x@ * b.x@ + a.y@ * b.y@ + a.z@ * b.z@
}

/// The signed quotients of two numbers by one length stay in proportion.
pub proof fn lemma_signed_proportion(p: int, q: int, fine: int, up: int, uq: int)
    requires
        0 < fine,
        magnitude(up) == (magnitude(p) * 0x1_0000_0000_0000_0000) / fine,
        magnitude(uq) == (magnitude(q) * 0x1_0000_0000_0000_0000) / fine,
        (p < 0) == (up < 0) || up == 0,
        (q < 0) == (uq < 0) || uq == 0,
        -ONE_RAW <= p <= ONE_RAW,
        -ONE_RAW <= q <= ONE_RAW,
    ensures
        -ONE_RAW <= up * q - uq * p <= ONE_RAW,
{
    let a = magnitude(p);
    let b = magnitude(q);
    let ma = magnitude(up);
    let mb = magnitude(uq);
    lemma_in_proportion(a, b, fine);
    let diff = ma * b - mb * a;
    assert(up * q - uq * p == diff || up * q - uq * p == -diff) by (nonlinear_arith)
        requires
            diff == ma * b - mb * a,
            ma == magnitude(up),
            mb == magnitude(uq),
            a == magnitude(p),
            b == magnitude(q),
            (p < 0) == (up < 0) || up == 0,
            (q < 0) == (uq < 0) || uq == 0,
    ;
}

/// The first axis of the frame around a normal is at right angles to the
/// normal, up to rounding: its exact dot product with the normal is at most
/// one raw unit of value, and its components lie between minus one and one.
pub proof fn lemma_first_axis(w: Vector3)
    requires
        within(w, ONE_RAW as int),
    ensures
        ({
            let u = Vector3::spec_cross(&spec_helper_axis(w), &w).spec_normalized();
            &&& within(u, ONE_RAW as int)
            &&& -ONE_RAW <= exact_dot(u, w) <= ONE_RAW
        }),
{
    let c = Vector3::spec_cross(&spec_helper_axis(w), &w);
    let u = c.spec_normalized();
    lemma_mul_raw_zero(w.x@);
    lemma_mul_raw_zero(w.y@);
    lemma_mul_raw_zero(w.z@);
    lemma_mul_raw_one(w.x@);
    lemma_mul_raw_one(w.y@);
    lemma_mul_raw_one(w.z@);
    lemma_normalized_zero(c);
    if c.square_sum() > 0 {
        lemma_normalized_square_sum(c);
        let fine = c.fine_length();
        assert(fine > 0) by {
            lemma_fine_length_positive(c.square_sum());
        }
        if w.x.absolute()@ > TENTH_RAW {
            assert(c.x@ == w.z@ && c.y@ == 0 && c.z@ == -w.x@);
            assert(u.y@ == 0);
            lemma_signed_proportion(w.z@, w.x@, fine, u.x@, -u.z@);
            assert(exact_dot(u, w) == u.x@ * w.x@ - (-u.z@) * w.z@) by (nonlinear_arith)
                requires
                    exact_dot(u, w) == u.x@ * w.x@ + u.y@ * w.y@ + u.z@ * w.z@,
                    u.y@ == 0,
            ;
        } else {
            assert(c.x@ == 0 && c.y@ == -w.z@ && c.z@ == w.y@);
            assert(u.x@ == 0);
            lemma_signed_proportion(w.y@, w.z@, fine, u.z@, -u.y@);
            assert(exact_dot(u, w) == u.z@ * w.z@ - (-u.y@) * w.y@) by (nonlinear_arith)
                requires
                    exact_dot(u, w) == u.x@ * w.x@ + u.y@ * w.y@ + u.z@ * w.z@,
                    u.x@ == 0,
            ;
        }
    } else {
        assert(exact_dot(u, w) == 0) by (nonlinear_arith)
            requires
                exact_dot(u, w) == u.x@ * w.x@ + u.y@ * w.y@ + u.z@ * w.z@,
                u.x@ == 0,
                u.y@ == 0,
                u.z@ == 0,
        ;
    }
}

/// The second axis of the frame, the cross product of the normal with the
/// first axis, is at right angles to the normal, up to rounding: its exact
/// dot product with the normal is at most six raw units of value, and its
/// components lie between minus two and two.
pub proof fn lemma_second_axis(w: Vector3, u: Vector3)
    requires
        within(w, ONE_RAW as int),
        within(u, ONE_RAW as int),
    ensures
        within(Vector3::spec_cross(&w, &u), 2 * ONE_RAW),
        -(6 * ONE_RAW) <= exact_dot(Vector3::spec_cross(&w, &u), w) <= 6 * ONE_RAW,
        -(6 * ONE_RAW) <= exact_dot(Vector3::spec_cross(&w, &u), u) <= 6 * ONE_RAW,
{
    let s = ONE_RAW as int;
    let v = Vector3::spec_cross(&w, &u);
    lemma_product_with_fraction(w.y@, u.z@);
    lemma_product_with_fraction(w.z@, u.y@);
    lemma_product_with_fraction(w.z@, u.x@);
    lemma_product_with_fraction(w.x@, u.z@);
    lemma_product_with_fraction(w.x@, u.y@);
    lemma_product_with_fraction(w.y@, u.x@);
    lemma_product_rounding(w.y@, u.z@);
    lemma_product_rounding(w.z@, u.y@);
    lemma_product_rounding(w.z@, u.x@);
    lemma_product_rounding(w.x@, u.z@);
    lemma_product_rounding(w.x@, u.y@);
    lemma_product_rounding(w.y@, u.x@);
    let r0 = (w.y@ * u.z@ - w.z@ * u.y@) - v.x@ * s;
    let r1 = (w.z@ * u.x@ - w.x@ * u.z@) - v.y@ * s;
    let r2 = (w.x@ * u.y@ - w.y@ * u.x@) - v.z@ * s;
    assert(v.x@ == mul_raw(w.y@, u.z@) - mul_raw(w.z@, u.y@));
    assert(v.y@ == mul_raw(w.z@, u.x@) - mul_raw(w.x@, u.z@));
    assert(v.z@ == mul_raw(w.x@, u.y@) - mul_raw(w.y@, u.x@));
    assert(-(2 * s) < r0 < 2 * s && -(2 * s) < r1 < 2 * s && -(2 * s) < r2 < 2 * s);
    lemma_cross_is_orthogonal((w.x@, w.y@, w.z@), (u.x@, u.y@, u.z@));
    let vw = exact_dot(v, w);
    assert(s * (v.x@ * w.x@) == w.x@ * (w.y@ * u.z@ - w.z@ * u.y@) - r0 * w.x@) by (nonlinear_arith)
        requires
            r0 == (w.y@ * u.z@ - w.z@ * u.y@) - v.x@ * s,
    ;
    assert(s * (v.y@ * w.y@) == w.y@ * (w.z@ * u.x@ - w.x@ * u.z@) - r1 * w.y@) by (nonlinear_arith)
        requires
            r1 == (w.z@ * u.x@ - w.x@ * u.z@) - v.y@ * s,
    ;
    assert(s * (v.z@ * w.z@) == w.z@ * (w.x@ * u.y@ - w.y@ * u.x@) - r2 * w.z@) by (nonlinear_arith)
        requires
            r2 == (w.x@ * u.y@ - w.y@ * u.x@) - v.z@ * s,
    ;
    assert(s * vw == s * (v.x@ * w.x@) + s * (v.y@ * w.y@) + s * (v.z@ * w.z@)) by (nonlinear_arith)
        requires
            vw == v.x@ * w.x@ + v.y@ * w.y@ + v.z@ * w.z@,
    ;
    lemma_product_bound(r0, w.x@, 2 * s, s);
    lemma_product_bound(r1, w.y@, 2 * s, s);
    lemma_product_bound(r2, w.z@, 2 * s, s);
    assert((2 * s) * s == 2 * (s * s)) by (nonlinear_arith);
    assert(-(6 * (s * s)) <= s * vw <= 6 * (s * s));
    assert(-(6 * s) <= vw <= 6 * s) by (nonlinear_arith)
        requires
            -(6 * (s * s)) <= s * vw <= 6 * (s * s),
            s > 0,
    ;
    // the same against the other factor
    lemma_cross_is_orthogonal_to_second((w.x@, w.y@, w.z@), (u.x@, u.y@, u.z@));
    let vu = exact_dot(v, u);
    assert(s * (v.x@ * u.x@) == u.x@ * (w.y@ * u.z@ - w.z@ * u.y@) - r0 * u.x@) by (nonlinear_arith)
        requires
            r0 == (w.y@ * u.z@ - w.z@ * u.y@) - v.x@ * s,
    ;
    assert(s * (v.y@ * u.y@) == u.y@ * (w.z@ * u.x@ - w.x@ * u.z@) - r1 * u.y@) by (nonlinear_arith)
        requires
            r1 == (w.z@ * u.x@ - w.x@ * u.z@) - v.y@ * s,
    ;
    assert(s * (v.z@ * u.z@) == u.z@ * (w.x@ * u.y@ - w.y@ * u.x@) - r2 * u.z@) by (nonlinear_arith)
        requires
            r2 == (w.x@ * u.y@ - w.y@ * u.x@) - v.z@ * s,
    ;
    assert(s * vu == s * (v.x@ * u.x@) + s * (v.y@ * u.y@) + s * (v.z@ * u.z@)) by (nonlinear_arith)
        requires
            vu == v.x@ * u.x@ + v.y@ * u.y@ + v.z@ * u.z@,
    ;
    lemma_product_bound(r0, u.x@, 2 * s, s);
    lemma_product_bound(r1, u.y@, 2 * s, s);
    lemma_product_bound(r2, u.z@, 2 * s, s);
    assert(-(6 * (s * s)) <= s * vu <= 6 * (s * s));
    assert(-(6 * s) <= vu <= 6 * s) by (nonlinear_arith)
        requires
            -(6 * (s * s)) <= s * vu <= 6 * (s * s),
            s > 0,
    ;
}

/// A vector scaled by two numbers between minus one and one, against the
/// normal: the exact dot product of the result with the normal is small
/// where that of the vector is.
pub proof fn lemma_scaled_axis(x: Vector3, f: Fixed, g: Fixed, w: Vector3, skew: int)
    requires
        within(x, 2 * ONE_RAW),
        within(w, ONE_RAW as int),
        -ONE_RAW <= f@ <= ONE_RAW,
        -ONE_RAW <= g@ <= ONE_RAW,
        0 <= skew,
        -(skew * ONE_RAW) <= exact_dot(x, w) <= skew * ONE_RAW,
    ensures
        within(x.scaled(f).scaled(g), 2 * ONE_RAW),
        -((skew + 6) * ONE_RAW) <= exact_dot(x.scaled(f).scaled(g), w) <= (skew + 6) * ONE_RAW,
{
    let s = ONE_RAW as int;
    let m = x.scaled(f);
    let big = m.scaled(g);
    lemma_product_with_fraction(x.x@, f@);
    lemma_product_with_fraction(x.y@, f@);
    lemma_product_with_fraction(x.z@, f@);
    lemma_product_rounding(x.x@, f@);
    lemma_product_rounding(x.y@, f@);
    lemma_product_rounding(x.z@, f@);
    assert(m.x@ == mul_raw(x.x@, f@) && m.y@ == mul_raw(x.y@, f@) && m.z@ == mul_raw(x.z@, f@));
    lemma_product_with_fraction(m.x@, g@);
    lemma_product_with_fraction(m.y@, g@);
    lemma_product_with_fraction(m.z@, g@);
    lemma_product_rounding(m.x@, g@);
    lemma_product_rounding(m.y@, g@);
    lemma_product_rounding(m.z@, g@);
    assert(big.x@ == mul_raw(m.x@, g@) && big.y@ == mul_raw(m.y@, g@) && big.z@ == mul_raw(
        m.z@,
        g@,
    ));
    let e = (x.x@ * f@ - m.x@ * s, x.y@ * f@ - m.y@ * s, x.z@ * f@ - m.z@ * s);
    let e2 = (m.x@ * g@ - big.x@ * s, m.y@ * g@ - big.y@ * s, m.z@ * g@ - big.z@ * s);
    lemma_axis_part(
        s,
        (x.x@, x.y@, x.z@),
        f@,
        g@,
        (m.x@, m.y@, m.z@),
        (big.x@, big.y@, big.z@),
        e,
        e2,
        (w.x@, w.y@, w.z@),
        skew,
    );
    let bw = exact_dot(big, w);
    assert(-((skew + 6) * s) <= bw <= (skew + 6) * s) by (nonlinear_arith)
        requires
            -((skew + 6) * (s * (s * s))) <= (s * s) * bw <= (skew + 6) * (s * (s * s)),
            s > 0,
            skew >= 0,
    ;
}

/// Largest raw distance between the part of the sampled direction along
/// the normal and the root of one less the radius parameter.
pub const ALONG_TOLERANCE: i64 = 37;

/// The vector is a unit normal as normalizing yields it: its components lie
/// between minus one and one, and the exact sum of their squares differs
/// from one by at most twelve raw units of value.
pub open spec fn nearly_unit(w: Vector3) -> bool {
    &&& within(w, ONE_RAW as int)
    &&& -(12 * ONE_RAW) <= w.square_sum() - 0x1_0000_0000_0000_0000 <= 12 * ONE_RAW
}

/// The root of a number between zero and one lies between zero and one, and
/// the root of a number of at least one raw unit is at least `2^-16`.
proof fn lemma_unit_root(a: int)
    requires
        0 <= a <= ONE_RAW,
    ensures
        0 <= sqrt_raw(a) <= ONE_RAW,
        a >= 1 ==> sqrt_raw(a) >= 0x1_0000,
{
    lemma_sqrt_raw_bounds(a);
    let r = sqrt_raw(a);
    if a > 0 {
        assert(is_floor_sqrt(a * ONE_RAW, r));
        if r > ONE_RAW {
            assert(r * r >= 0x1_0000_0001 * 0x1_0000_0001) by (nonlinear_arith)
                requires
                    r >= 0x1_0000_0001,
            ;
        }
        if r < 0x1_0000 {
            assert((r + 1) * (r + 1) <= 0x1_0000 * 0x1_0000) by (nonlinear_arith)
                requires
                    0 <= r + 1 <= 0x1_0000,
            ;
        }
    }
}

/// The sampled direction leaves the surface on the side of the normal. For
/// a unit normal `w` and any two draws, the part of the sampled direction
/// along `w`, its dot product with `w`, differs from the root of one less
/// the radius parameter by at most `ALONG_TOLERANCE` raw units, and is
/// above zero.
pub proof fn lemma_scatter_along_normal(w: Vector3, azimuth_bits: u64, radius_bits: u64)
    requires
        nearly_unit(w),
    ensures
        ({
            let d = spec_scatter_direction(w, azimuth_bits, radius_bits);
            let z = Fixed::of(ONE_RAW as int).minus(Fixed::of(unit_raw(radius_bits as int))).root()@;
            &&& z - ALONG_TOLERANCE <= Vector3::spec_dot(&d, &w)@ <= z + ALONG_TOLERANCE
            &&& Vector3::spec_dot(&d, &w)@ > 0
            &&& 0x1_0000 <= z <= ONE_RAW
        }),
{
    let s = ONE_RAW as int;
    let d = spec_scatter_direction(w, azimuth_bits, radius_bits);
    let z = Fixed::of(s).minus(Fixed::of(unit_raw(radius_bits as int))).root()@;
    lemma_scatter_parts(w, azimuth_bits, radius_bits);
    lemma_dot_rounding(d, w);
    let dot = Vector3::spec_dot(&d, &w)@;
    assert(z - 37 <= dot <= z + 37) by (nonlinear_arith)
        requires
            -(34 * s) <= exact_dot(d, w) - z * s <= 34 * s,
            -(3 * s) < exact_dot(d, w) - dot * s < 3 * s,
            s > 0,
    ;
}

/// The scattered ray leaves the surface on the side of the normal: for a
/// hit with a unit normal and any two draws, the dot product of the
/// direction of the scattered ray with the normal is above zero.
pub proof fn lemma_scattered_ray_leaves(hit: Hit, azimuth_bits: u64, radius_bits: u64)
    requires
        nearly_unit(hit.normal),
    ensures
        Vector3::spec_dot(
            &scattered_ray(hit, azimuth_bits, radius_bits).direction,
            &hit.normal,
        )@ > 0,
{
    let s = ONE_RAW as int;
    let big: int = 0x1_0000_0000_0000_0000int;
    let w = hit.normal;
    let d = spec_scatter_direction(w, azimuth_bits, radius_bits);
    let n = d.spec_normalized();
    lemma_scatter_parts(w, azimuth_bits, radius_bits);
    let dw = exact_dot(d, w);
    assert(dw >= 65000 * s);
    // the sampled direction is not zero, and its fine length is at most 9 * 2^64
    assert(d.x@ * d.x@ <= (5 * s) * (5 * s) && d.y@ * d.y@ <= (5 * s) * (5 * s) && d.z@ * d.z@ <= (5
        * s) * (5 * s)) by (nonlinear_arith)
        requires
            -(5 * s) <= d.x@ <= 5 * s,
            -(5 * s) <= d.y@ <= 5 * s,
            -(5 * s) <= d.z@ <= 5 * s,
    ;
    lemma_normalized_zero(d);
    if d.square_sum() == 0 {
        assert(dw == 0) by (nonlinear_arith)
            requires
                dw == d.x@ * w.x@ + d.y@ * w.y@ + d.z@ * w.z@,
                d.x@ == 0,
                d.y@ == 0,
                d.z@ == 0,
        ;
    }
    lemma_normalized_square_sum(d);
    lemma_fine_length_positive(d.square_sum());
    let fine = d.fine_length();
    let slack = lemma_fine_length(d);
    assert(fine <= 9 * big) by {
        if fine > 9 * big {
            assert(fine * fine >= (9 * big) * (9 * big)) by (nonlinear_arith)
                requires
                    fine >= 9 * big,
                    big > 0,
            ;
            assert(d.square_sum() * big <= (75 * big) * big) by (nonlinear_arith)
                requires
                    d.square_sum() <= 75 * big,
                    big > 0,
            ;
            assert((9 * big) * (9 * big) == 81 * (big * big) && (75 * big) * big == 75 * (big
                * big)) by (nonlinear_arith);
            assert(big * big > 0) by (nonlinear_arith)
                requires
                    big > 0,
            ;
        }
    }
    let a = (magnitude(d.x@), magnitude(d.y@), magnitude(d.z@));
    lemma_quotient_brackets(a.0 * big, fine);
    lemma_quotient_brackets(a.1 * big, fine);
    lemma_quotient_brackets(a.2 * big, fine);
    let e = (d.x@ * big - n.x@ * fine, d.y@ * big - n.y@ * fine, d.z@ * big - n.z@ * fine);
    assert(-fine < e.0 < fine) by (nonlinear_arith)
        requires
            e.0 == d.x@ * big - n.x@ * fine,
            magnitude(n.x@) == (a.0 * big) / fine,
            ((a.0 * big) / fine) * fine <= a.0 * big < ((a.0 * big) / fine) * fine + fine,
            a.0 == magnitude(d.x@),
            (d.x@ < 0) == (n.x@ < 0) || n.x@ == 0,
            big > 0,
            fine > 0,
    ;
    assert(-fine < e.1 < fine) by (nonlinear_arith)
        requires
            e.1 == d.y@ * big - n.y@ * fine,
            magnitude(n.y@) == (a.1 * big) / fine,
            ((a.1 * big) / fine) * fine <= a.1 * big < ((a.1 * big) / fine) * fine + fine,
            a.1 == magnitude(d.y@),
            (d.y@ < 0) == (n.y@ < 0) || n.y@ == 0,
            big > 0,
            fine > 0,
    ;
    assert(-fine < e.2 < fine) by (nonlinear_arith)
        requires
            e.2 == d.z@ * big - n.z@ * fine,
            magnitude(n.z@) == (a.2 * big) / fine,
            ((a.2 * big) / fine) * fine <= a.2 * big < ((a.2 * big) / fine) * fine + fine,
            a.2 == magnitude(d.z@),
            (d.z@ < 0) == (n.z@ < 0) || n.z@ == 0,
            big > 0,
            fine > 0,
    ;
    let nw = exact_dot(n, w);
    assert(fine * (n.x@ * w.x@) == big * (d.x@ * w.x@) - e.0 * w.x@) by (nonlinear_arith)
        requires
            e.0 == d.x@ * big - n.x@ * fine,
    ;
    assert(fine * (n.y@ * w.y@) == big * (d.y@ * w.y@) - e.1 * w.y@) by (nonlinear_arith)
        requires
            e.1 == d.y@ * big - n.y@ * fine,
    ;
    assert(fine * (n.z@ * w.z@) == big * (d.z@ * w.z@) - e.2 * w.z@) by (nonlinear_arith)
        requires
            e.2 == d.z@ * big - n.z@ * fine,
    ;
    assert(fine * nw == fine * (n.x@ * w.x@) + fine * (n.y@ * w.y@) + fine * (n.z@ * w.z@))
        by (nonlinear_arith)
        requires
            nw == n.x@ * w.x@ + n.y@ * w.y@ + n.z@ * w.z@,
    ;
    assert(big * dw == big * (d.x@ * w.x@) + big * (d.y@ * w.y@) + big * (d.z@ * w.z@))
        by (nonlinear_arith)
        requires
            dw == d.x@ * w.x@ + d.y@ * w.y@ + d.z@ * w.z@,
    ;
    lemma_product_bound(e.0, w.x@, fine, s);
    lemma_product_bound(e.1, w.y@, fine, s);
    lemma_product_bound(e.2, w.z@, fine, s);
    assert(big * dw >= big * (65000 * s)) by (nonlinear_arith)
        requires
            dw >= 65000 * s,
            big > 0,
    ;
    assert(big * (65000 * s) >= (7000 * s) * fine + 3 * (fine * s)) by (nonlinear_arith)
        requires
            fine <= 9 * big,
            s > 0,
            big > 0,
            fine > 0,
    ;
    assert(nw >= 7000 * s) by (nonlinear_arith)
        requires
            fine * nw >= (7000 * s) * fine,
            fine > 0,
    ;
    lemma_dot_rounding(n, w);
}

/// The exact dot product of the sampled direction with a unit normal, and
/// the size of the components of the sampled direction.
proof fn lemma_scatter_parts(w: Vector3, azimuth_bits: u64, radius_bits: u64)
    requires
        nearly_unit(w),
    ensures
        within(spec_scatter_direction(w, azimuth_bits, radius_bits), 5 * ONE_RAW),
        exact_dot(spec_scatter_direction(w, azimuth_bits, radius_bits), w) >= 65000 * ONE_RAW,
        ({
            let z = Fixed::of(ONE_RAW as int).minus(Fixed::of(unit_raw(radius_bits as int))).root()@;
            &&& 0x1_0000 <= z <= ONE_RAW
            &&& -(34 * ONE_RAW) <= exact_dot(
                spec_scatter_direction(w, azimuth_bits, radius_bits),
                w,
            ) - z * ONE_RAW <= 34 * ONE_RAW
        }),
{
    let s = ONE_RAW as int;
    let r1 = Fixed::of(unit_raw(azimuth_bits as int));
    let r2 = Fixed::of(unit_raw(radius_bits as int));
    assert(0 <= r2@ < s);
    lemma_unit_root(r2@);
    lemma_unit_root(s - r2@);
    let r2s = r2.root();
    let zf = Fixed::of(s).minus(r2).root();
    assert(zf@ == sqrt_raw(s - r2@));
    lemma_sine_bounds(r1@);
    let c1 = r1.spec_cos_turns();
    let s1 = r1.spec_sin_turns();
    let u = Vector3::spec_cross(&spec_helper_axis(w), &w).spec_normalized();
    lemma_first_axis(w);
    let v = Vector3::spec_cross(&w, &u);
    lemma_second_axis(w, u);
    let a = u.scaled(c1).scaled(r2s);
    let b = v.scaled(s1).scaled(r2s);
    lemma_scaled_axis(u, c1, r2s, w, 1);
    lemma_scaled_axis(v, s1, r2s, w, 6);
    let c = w.scaled(zf);
    lemma_along_normal(w, zf);
    let d = a.plus(b).plus(c);
    assert(d == spec_scatter_direction(w, azimuth_bits, radius_bits));
    assert(d.x@ == a.x@ + b.x@ + c.x@ && d.y@ == a.y@ + b.y@ + c.y@ && d.z@ == a.z@ + b.z@
        + c.z@);
    assert(d.x@ * w.x@ == a.x@ * w.x@ + b.x@ * w.x@ + c.x@ * w.x@) by (nonlinear_arith)
        requires
            d.x@ == a.x@ + b.x@ + c.x@,
    ;
    assert(d.y@ * w.y@ == a.y@ * w.y@ + b.y@ * w.y@ + c.y@ * w.y@) by (nonlinear_arith)
        requires
            d.y@ == a.y@ + b.y@ + c.y@,
    ;
    assert(d.z@ * w.z@ == a.z@ * w.z@ + b.z@ * w.z@ + c.z@ * w.z@) by (nonlinear_arith)
        requires
            d.z@ == a.z@ + b.z@ + c.z@,
    ;
    assert(zf@ * s >= 65536 * s) by (nonlinear_arith)
        requires
            zf@ >= 65536,
            s > 0,
    ;
}

/// The normal scaled by `z`, against the normal itself.
proof fn lemma_along_normal(w: Vector3, z: Fixed)
    requires
        nearly_unit(w),
        0 <= z@ <= ONE_RAW,
    ensures
        within(w.scaled(z), ONE_RAW as int),
        -(15 * ONE_RAW) <= exact_dot(w.scaled(z), w) - z@ * ONE_RAW <= 15 * ONE_RAW,
{
    let s = ONE_RAW as int;
    let c = w.scaled(z);
    lemma_product_with_fraction(w.x@, z@);
    lemma_product_with_fraction(w.y@, z@);
    lemma_product_with_fraction(w.z@, z@);
    lemma_product_rounding(w.x@, z@);
    lemma_product_rounding(w.y@, z@);
    lemma_product_rounding(w.z@, z@);
    assert(c.x@ == mul_raw(w.x@, z@) && c.y@ == mul_raw(w.y@, z@) && c.z@ == mul_raw(w.z@, z@));
    let gamma = (w.x@ * z@ - c.x@ * s, w.y@ * z@ - c.y@ * s, w.z@ * z@ - c.z@ * s);
    assert(s * s == 0x1_0000_0000_0000_0000);
    lemma_normal_part(s, (w.x@, w.y@, w.z@), z@, (c.x@, c.y@, c.z@), gamma);
    let cw = exact_dot(c, w);
    assert(-(15 * s) <= cw - z@ * s <= 15 * s) by (nonlinear_arith)
        requires
            -(15 * (s * s)) <= s * cw - z@ * (s * s) <= 15 * (s * s),
            s > 0,
    ;
}

/// The dot product of two vectors with components of moderate size differs
/// from the exact dot product by less than three raw units.
pub proof fn lemma_dot_rounding(a: Vector3, b: Vector3)
    requires
        within(a, 5 * ONE_RAW),
        within(b, ONE_RAW as int),
    ensures
        -(3 * ONE_RAW) < exact_dot(a, b) - Vector3::spec_dot(&a, &b)@ * ONE_RAW < 3 * ONE_RAW,
{
    lemma_product_with_fraction(a.x@, b.x@);
    lemma_product_with_fraction(a.y@, b.y@);
    lemma_product_with_fraction(a.z@, b.z@);
    lemma_product_rounding(a.x@, b.x@);
    lemma_product_rounding(a.y@, b.y@);
    lemma_product_rounding(a.z@, b.z@);
    assert(Vector3::spec_dot(&a, &b)@ == mul_raw(a.x@, b.x@) + mul_raw(a.y@, b.y@) + mul_raw(
        a.z@,
        b.z@,
    ));
}

/// Normalizing a vector that is not short keeps it at right angles to what
/// it was at right angles to: for a vector `v` of squared length at least a
/// quarter whose exact dot product with `f` is at most `skew` raw units of
/// value, that of the normalized vector is at most `3 skew + 3`.
pub proof fn lemma_normalized_keeps_angle(v: Vector3, f: Vector3, skew: int)
    requires
        within(f, ONE_RAW as int),
        0 <= skew,
        -(skew * ONE_RAW) <= exact_dot(v, f) <= skew * ONE_RAW,
        v.square_sum() >= 0x4000_0000_0000_0000,
    ensures
        within(v.spec_normalized(), ONE_RAW as int),
        -((3 * skew + 3) * ONE_RAW) <= exact_dot(v.spec_normalized(), f) <= (3 * skew + 3)
            * ONE_RAW,
{
    let s = ONE_RAW as int;
    let w: int = 0x1_0000_0000_0000_0000int;
    let n = v.spec_normalized();
    let fine = v.fine_length();
    lemma_normalized_square_sum(v);
    lemma_fine_length_positive(v.square_sum());
    let slack = lemma_fine_length(v);
    // 2^64 <= 3 fine
    assert(w <= 3 * fine) by {
        if 3 * fine < w {
            let wide = fine + slack;
            assert(wide * wide <= 0x8000_0000_0000_0000 * 0x8000_0000_0000_0000)
                by (nonlinear_arith)
                requires
                    0 <= wide <= 0x8000_0000_0000_0000,
            ;
            assert(v.square_sum() * w >= 0x4000_0000_0000_0000 * w) by (nonlinear_arith)
                requires
                    v.square_sum() >= 0x4000_0000_0000_0000,
                    w >= 0,
            ;
        }
    }
    let a = (magnitude(v.x@), magnitude(v.y@), magnitude(v.z@));
    lemma_quotient_brackets(a.0 * w, fine);
    lemma_quotient_brackets(a.1 * w, fine);
    lemma_quotient_brackets(a.2 * w, fine);
    let e = (v.x@ * w - n.x@ * fine, v.y@ * w - n.y@ * fine, v.z@ * w - n.z@ * fine);
    assert(-fine < e.0 < fine) by (nonlinear_arith)
        requires
            e.0 == v.x@ * w - n.x@ * fine,
            magnitude(n.x@) == (a.0 * w) / fine,
            ((a.0 * w) / fine) * fine <= a.0 * w < ((a.0 * w) / fine) * fine + fine,
            a.0 == magnitude(v.x@),
            (v.x@ < 0) == (n.x@ < 0) || n.x@ == 0,
            w > 0,
            fine > 0,
    ;
    assert(-fine < e.1 < fine) by (nonlinear_arith)
        requires
            e.1 == v.y@ * w - n.y@ * fine,
            magnitude(n.y@) == (a.1 * w) / fine,
            ((a.1 * w) / fine) * fine <= a.1 * w < ((a.1 * w) / fine) * fine + fine,
            a.1 == magnitude(v.y@),
            (v.y@ < 0) == (n.y@ < 0) || n.y@ == 0,
            w > 0,
            fine > 0,
    ;
    assert(-fine < e.2 < fine) by (nonlinear_arith)
        requires
            e.2 == v.z@ * w - n.z@ * fine,
            magnitude(n.z@) == (a.2 * w) / fine,
            ((a.2 * w) / fine) * fine <= a.2 * w < ((a.2 * w) / fine) * fine + fine,
            a.2 == magnitude(v.z@),
            (v.z@ < 0) == (n.z@ < 0) || n.z@ == 0,
            w > 0,
            fine > 0,
    ;
    let nf = exact_dot(n, f);
    let vf = exact_dot(v, f);
    assert(fine * (n.x@ * f.x@) == w * (v.x@ * f.x@) - e.0 * f.x@) by (nonlinear_arith)
        requires
            e.0 == v.x@ * w - n.x@ * fine,
    ;
    assert(fine * (n.y@ * f.y@) == w * (v.y@ * f.y@) - e.1 * f.y@) by (nonlinear_arith)
        requires
            e.1 == v.y@ * w - n.y@ * fine,
    ;
    assert(fine * (n.z@ * f.z@) == w * (v.z@ * f.z@) - e.2 * f.z@) by (nonlinear_arith)
        requires
            e.2 == v.z@ * w - n.z@ * fine,
    ;
    assert(fine * nf == fine * (n.x@ * f.x@) + fine * (n.y@ * f.y@) + fine * (n.z@ * f.z@))
        by (nonlinear_arith)
        requires
            nf == n.x@ * f.x@ + n.y@ * f.y@ + n.z@ * f.z@,
    ;
    assert(w * vf == w * (v.x@ * f.x@) + w * (v.y@ * f.y@) + w * (v.z@ * f.z@))
        by (nonlinear_arith)
        requires
            vf == v.x@ * f.x@ + v.y@ * f.y@ + v.z@ * f.z@,
    ;
    lemma_product_bound(e.0, f.x@, fine, s);
    lemma_product_bound(e.1, f.y@, fine, s);
    lemma_product_bound(e.2, f.z@, fine, s);
    lemma_product_bound(w, vf, 3 * fine, skew * s);
    let bound = (3 * skew + 3) * s;
    assert((3 * fine) * (skew * s) + 3 * (fine * s) == fine * bound) by (nonlinear_arith)
        requires
            bound == (3 * skew + 3) * s,
    ;
    assert(-(fine * bound) <= fine * nf <= fine * bound);
    assert(-bound <= nf <= bound) by (nonlinear_arith)
        requires
            -(fine * bound) <= fine * nf <= fine * bound,
            fine > 0,
    ;
}

} // verus!
