//! Normalizing a vector yields a vector of length one, up to rounding.

use crate::fixed::{
    lemma_quotient_brackets, lemma_sqrt_raw_bounds, magnitude, mul_raw, sqrt_raw, ONE_RAW,
};
use crate::isqrt::{is_floor_sqrt, lemma_floor_sqrt_exists};
use crate::vector::{lemma_fine_length_positive, lemma_normalized_zero, Vector3};
use vstd::prelude::*;

verus! {

/// Largest raw distance of the length of a normalized vector from one.
pub const UNIT_TOLERANCE: i64 = 8;

/// The square of a quotient, rounded down, against the square of the exact
/// quotient.
proof fn lemma_quotient_square(q: int, len: int)
    requires
        0 <= q,
        0 < len,
    ensures
        0 <= q / len,
        (q / len) * (q / len) * (len * len) <= q * q,
        (q / len) * (q / len) * (len * len) >= q * q - 2 * (q * len),
{
    let m = q / len;
    let p = m * len;
    lemma_quotient_brackets(q, len);
    assert(p * p <= q * q) by (nonlinear_arith)
        requires
            0 <= p <= q,
    ;
    assert(p * p == m * m * (len * len)) by (nonlinear_arith)
        requires
            p == m * len,
    ;
    assert(p * p >= q * q - 2 * (q * len)) by (nonlinear_arith)
        requires
            0 <= p <= q,
            q < p + len,
            0 < len,
    ;
}

/// A natural number whose square is below the square of another is below
/// that number.
proof fn lemma_square_order(a: int, b: int)
    requires
        0 <= a,
        0 <= b,
        a * a < b * b,
    ensures
        a < b,
{
    if a >= b {
        assert(a * a >= b * b) by (nonlinear_arith)
            requires
                a >= b,
                b >= 0,
        ;
    }
}

/// One quotient against the fine length: `a`, in units of `2^-32`, is below
/// twice the fine length.
proof fn lemma_component_bound(a: int, x: int, fine: int, slack: int)
    requires
        0 <= a,
        a * a <= x,
        1 <= slack,
        slack * ONE_RAW <= fine,
        x * 0x1_0000_0000_0000_0000 < (fine + slack) * (fine + slack),
    ensures
        (a * 0x1_0000_0000_0000_0000) * fine <= 0x2_0000_0000 * (fine * fine),
{
    let s = a * 0x1_0000_0000;
    assert(s * s == (a * a) * 0x1_0000_0000_0000_0000) by (nonlinear_arith)
        requires
            s == a * 0x1_0000_0000,
    ;
    assert((fine + slack) * (fine + slack) <= (2 * fine) * (2 * fine)) by (nonlinear_arith)
        requires
            0 <= fine + slack <= 2 * fine,
    ;
    lemma_square_order(s, 2 * fine);
    assert((a * 0x1_0000_0000_0000_0000) * fine == 0x1_0000_0000 * (s * fine)) by (nonlinear_arith)
        requires
            s == a * 0x1_0000_0000,
    ;
    assert(s * fine <= 2 * (fine * fine)) by (nonlinear_arith)
        requires
            0 <= s <= 2 * fine,
            0 <= fine,
    ;
}

/// For three natural numbers and a fine length of the vector that they
/// form, the quotients by the fine length have squares that sum to one, up
/// to rounding.
pub proof fn lemma_quotients_unit(a: int, b: int, c: int, fine: int, slack: int)
    requires
        0 <= a,
        0 <= b,
        0 <= c,
        1 <= slack,
        slack * ONE_RAW <= fine,
        fine * fine <= (a * a + b * b + c * c) * 0x1_0000_0000_0000_0000,
        (a * a + b * b + c * c) * 0x1_0000_0000_0000_0000 < (fine + slack) * (fine + slack),
    ensures
        ({
            let ma = (a * 0x1_0000_0000_0000_0000) / fine;
            let mb = (b * 0x1_0000_0000_0000_0000) / fine;
            let mc = (c * 0x1_0000_0000_0000_0000) / fine;
            &&& 0 <= ma <= ONE_RAW
            &&& 0 <= mb <= ONE_RAW
            &&& 0 <= mc <= ONE_RAW
            &&& 0x1_0000_0000_0000_0000 - 12 * ONE_RAW <= ma * ma + mb * mb + mc * mc
            &&& ma * ma + mb * mb + mc * mc <= 0x1_0000_0000_0000_0000 + 2 * ONE_RAW
        }),
{
    let w: int = 0x1_0000_0000_0000_0000int;
    let qa = a * w;
    let qb = b * w;
    let qc = c * w;
    let ma = qa / fine;
    let mb = qb / fine;
    let mc = qc / fine;
    let ff = fine * fine;
    let x = a * a + b * b + c * c;
    let n2 = ma * ma + mb * mb + mc * mc;
    assert(a * a >= 0 && b * b >= 0 && c * c >= 0) by (nonlinear_arith);
    assert(ma * ma >= 0 && mb * mb >= 0 && mc * mc >= 0) by (nonlinear_arith);
    assert(ff > 0) by (nonlinear_arith)
        requires
            ff == fine * fine,
            fine > 0,
    ;
    lemma_quotient_square(qa, fine);
    lemma_quotient_square(qb, fine);
    lemma_quotient_square(qc, fine);
    assert(qa * qa == (a * a) * w * w) by (nonlinear_arith)
        requires
            qa == a * w,
    ;
    assert(qb * qb == (b * b) * w * w) by (nonlinear_arith)
        requires
            qb == b * w,
    ;
    assert(qc * qc == (c * c) * w * w) by (nonlinear_arith)
        requires
            qc == c * w,
    ;
    assert(n2 * ff == ma * ma * ff + mb * mb * ff + mc * mc * ff) by (nonlinear_arith)
        requires
            n2 == ma * ma + mb * mb + mc * mc,
    ;
    assert(x * w * w == (a * a) * w * w + (b * b) * w * w + (c * c) * w * w) by (nonlinear_arith)
        requires
            x == a * a + b * b + c * c,
    ;
    // The sum is below (2^32 + 1)^2.
    let xw = x * w;
    let wide = (fine + slack) * (fine + slack);
    let u = (fine + slack) * 0x1_0000_0000;
    let v = fine * 0x1_0000_0001;
    assert(u * u <= v * v) by (nonlinear_arith)
        requires
            0 <= u <= v,
    ;
    assert(u * u == wide * w) by (nonlinear_arith)
        requires
            u == (fine + slack) * 0x1_0000_0000,
            wide == (fine + slack) * (fine + slack),
            w == 0x1_0000_0000 * 0x1_0000_0000,
    ;
    assert(v * v == ff * (0x1_0000_0001 * 0x1_0000_0001)) by (nonlinear_arith)
        requires
            v == fine * 0x1_0000_0001,
            ff == fine * fine,
    ;
    assert(xw * w == x * w * w) by (nonlinear_arith)
        requires
            xw == x * w,
    ;
    assert(n2 * ff < ff * (0x1_0000_0001 * 0x1_0000_0001));
    if n2 >= 0x1_0000_0001 * 0x1_0000_0001 {
        assert(n2 * ff >= (0x1_0000_0001 * 0x1_0000_0001) * ff) by (nonlinear_arith)
            requires
                n2 >= 0x1_0000_0001 * 0x1_0000_0001,
                ff >= 0,
        ;
        assert((0x1_0000_0001 * 0x1_0000_0001) * ff == ff * (0x1_0000_0001 * 0x1_0000_0001))
            by (nonlinear_arith);
    }
    // The sum is above 2^64 - 12 * 2^32.
    lemma_component_bound(a, x, fine, slack);
    lemma_component_bound(b, x, fine, slack);
    lemma_component_bound(c, x, fine, slack);
    assert(qa * fine <= 0x2_0000_0000 * ff);
    assert(qb * fine <= 0x2_0000_0000 * ff);
    assert(qc * fine <= 0x2_0000_0000 * ff);
    assert(n2 * ff >= x * w * w - 2 * (qa * fine) - 2 * (qb * fine) - 2 * (qc * fine));
    assert(ff * w <= xw * w) by (nonlinear_arith)
        requires
            ff <= xw,
            w >= 0,
    ;
    let total = x * w * w;
    assert(total == xw * w);
    assert(total >= ff * w);
    assert(n2 * ff >= total - 2 * (qa * fine) - 2 * (qb * fine) - 2 * (qc * fine));
    assert(n2 * ff >= total - 0xc_0000_0000 * ff);
    assert(n2 * ff >= ff * w - 0xc_0000_0000 * ff);
    if n2 < w - 12 * 0x1_0000_0000 {
        assert(n2 * ff <= (w - 0xc_0000_0000 - 1) * ff) by (nonlinear_arith)
            requires
                n2 <= w - 0xc_0000_0000 - 1,
                ff >= 0,
        ;
        assert((w - 0xc_0000_0000 - 1) * ff == ff * w - 0xc_0000_0000 * ff - ff)
            by (nonlinear_arith);
    }
    lemma_small_root(ma, n2);
    lemma_small_root(mb, n2);
    lemma_small_root(mc, n2);
}

/// A natural number whose square is below `(2^32 + 1)^2` is at most `2^32`.
proof fn lemma_small_root(m: int, n2: int)
    requires
        0 <= m,
        m * m <= n2,
        n2 <= 0x1_0000_0000_0000_0000 + 2 * ONE_RAW,
    ensures
        m <= ONE_RAW,
{
    if m > ONE_RAW {
        assert(m * m >= 0x1_0000_0001 * 0x1_0000_0001) by (nonlinear_arith)
            requires
                m >= 0x1_0000_0001,
        ;
    }
}

/// The raw square of a number between minus one and one is its exact
/// square, rounded down to a multiple of `2^-32`.
proof fn lemma_square_raw(c: int)
    requires
        -ONE_RAW <= c <= ONE_RAW,
    ensures
        mul_raw(c, c) == (magnitude(c) * magnitude(c)) / (ONE_RAW as int),
        0 <= mul_raw(c, c) <= ONE_RAW,
        mul_raw(c, c) * ONE_RAW <= magnitude(c) * magnitude(c),
        magnitude(c) * magnitude(c) < mul_raw(c, c) * ONE_RAW + ONE_RAW,
{
    reveal(mul_raw);
    let m = magnitude(c);
    assert(0 <= m * m <= 0x1_0000_0000 * 0x1_0000_0000) by (nonlinear_arith)
        requires
            0 <= m <= 0x1_0000_0000,
    ;
}

/// The rounded-down root of a number close to `2^64` is close to `2^32`.
proof fn lemma_root_near_one(n: int, r: int)
    requires
        is_floor_sqrt(n, r),
        0x1_0000_0000_0000_0000 - 15 * ONE_RAW <= n <= 0x1_0000_0000_0000_0000 + 2 * ONE_RAW,
    ensures
        ONE_RAW - UNIT_TOLERANCE <= r <= ONE_RAW,
{
    if r > ONE_RAW {
        assert(r * r >= 0x1_0000_0001 * 0x1_0000_0001) by (nonlinear_arith)
            requires
                r >= 0x1_0000_0001,
        ;
    }
    if r + 1 <= ONE_RAW - 8 {
        assert((r + 1) * (r + 1) <= 0xffff_fff8 * 0xffff_fff8) by (nonlinear_arith)
            requires
                0 <= r + 1 <= 0xffff_fff8,
        ;
    }
}

/// The fine length of a vector brackets its exact length.
pub proof fn lemma_fine_length(v: Vector3) -> (slack: int)
    requires
        v.square_sum() > 0,
    ensures
        1 <= slack <= ONE_RAW,
        slack * ONE_RAW <= v.fine_length(),
        v.fine_length() * v.fine_length() <= v.square_sum() * 0x1_0000_0000_0000_0000,
        v.square_sum() * 0x1_0000_0000_0000_0000 < (v.fine_length() + slack) * (v.fine_length()
            + slack),
{
    let x = v.square_sum();
    let fine = v.fine_length();
    lemma_fine_length_positive(x);
    if x < 0x1_0000_0000_0000_0000 {
        lemma_floor_sqrt_exists(x * 0x1_0000_0000_0000_0000);
        1
    } else {
        lemma_floor_sqrt_exists(x);
        let r = fine / 0x1_0000_0000;
        assert(fine * fine == (r * r) * 0x1_0000_0000_0000_0000) by (nonlinear_arith)
            requires
                fine == r * 0x1_0000_0000,
        ;
        assert((fine + 0x1_0000_0000) * (fine + 0x1_0000_0000) == ((r + 1) * (r + 1))
            * 0x1_0000_0000_0000_0000) by (nonlinear_arith)
            requires
                fine == r * 0x1_0000_0000,
        ;
        0x1_0000_0000
    }
}

/// The exact sum of the squares of the components of a normalized vector is
/// one, up to rounding: it lies between `2^64 - 12 * 2^32` and
/// `2^64 + 2 * 2^32`, for every vector that is not zero.
pub proof fn lemma_normalized_square_sum(v: Vector3)
    requires
        v.square_sum() > 0,
    ensures
        0x1_0000_0000_0000_0000 - 12 * ONE_RAW <= v.spec_normalized().square_sum(),
        v.spec_normalized().square_sum() <= 0x1_0000_0000_0000_0000 + 2 * ONE_RAW,
        -ONE_RAW <= v.spec_normalized().x@ <= ONE_RAW,
        -ONE_RAW <= v.spec_normalized().y@ <= ONE_RAW,
        -ONE_RAW <= v.spec_normalized().z@ <= ONE_RAW,
{
    let a = magnitude(v.x@);
    let b = magnitude(v.y@);
    let c = magnitude(v.z@);
    let fine = v.fine_length();
    let slack = lemma_fine_length(v);
    assert(a * a == v.x@ * v.x@ && b * b == v.y@ * v.y@ && c * c == v.z@ * v.z@)
        by (nonlinear_arith)
        requires
            a == magnitude(v.x@),
            b == magnitude(v.y@),
            c == magnitude(v.z@),
    ;
    lemma_quotients_unit(a, b, c, fine, slack);
    let ma = (a * 0x1_0000_0000_0000_0000) / fine;
    let mb = (b * 0x1_0000_0000_0000_0000) / fine;
    let mc = (c * 0x1_0000_0000_0000_0000) / fine;
    let n = v.spec_normalized();
    assert(magnitude(n.x@) == ma);
    assert(magnitude(n.y@) == mb);
    assert(magnitude(n.z@) == mc);
    assert(n.x@ * n.x@ == ma * ma && n.y@ * n.y@ == mb * mb && n.z@ * n.z@ == mc * mc)
        by (nonlinear_arith)
        requires
            ma == magnitude(n.x@),
            mb == magnitude(n.y@),
            mc == magnitude(n.z@),
    ;
}

/// Normalizing yields a vector of length one, up to rounding: for every
/// vector that is not zero, the length of the normalized vector is at most
/// one and falls short of one by at most `UNIT_TOLERANCE` raw units, that
/// is, by less than `2^-29`.
pub proof fn lemma_normalized_is_unit(v: Vector3)
    requires
        v.x@ != 0 || v.y@ != 0 || v.z@ != 0,
    ensures
        ONE_RAW - UNIT_TOLERANCE <= v.spec_normalized().spec_length()@ <= ONE_RAW,
{
    lemma_normalized_zero(v);
    lemma_normalized_square_sum(v);
    let n = v.spec_normalized();
    lemma_square_raw(n.x@);
    lemma_square_raw(n.y@);
    lemma_square_raw(n.z@);
    assert(magnitude(n.x@) * magnitude(n.x@) == n.x@ * n.x@ && magnitude(n.y@) * magnitude(n.y@)
        == n.y@ * n.y@ && magnitude(n.z@) * magnitude(n.z@) == n.z@ * n.z@) by (nonlinear_arith);
    let dn = Vector3::spec_dot(&n, &n)@;
    assert(dn == mul_raw(n.x@, n.x@) + mul_raw(n.y@, n.y@) + mul_raw(n.z@, n.z@));
    assert(dn > 0);
    lemma_sqrt_raw_bounds(dn);
    lemma_root_near_one(dn * ONE_RAW, sqrt_raw(dn));
}

/// The fine length of a vector of unit length is close to `2^64`.
proof fn lemma_fine_of_unit(x: int, fine: int, slack: int)
    requires
        0x1_0000_0000_0000_0000 - 12 * ONE_RAW <= x <= 0x1_0000_0000_0000_0000 + 2 * ONE_RAW,
        1 <= slack <= ONE_RAW,
        0 <= fine,
        fine * fine <= x * 0x1_0000_0000_0000_0000,
        x * 0x1_0000_0000_0000_0000 < (fine + slack) * (fine + slack),
    ensures
        0x1_0000_0000_0000_0000 - 8 * ONE_RAW < fine <= 0x1_0000_0000_0000_0000 + ONE_RAW,
{
    if fine > 0x1_0000_0000_0000_0000 + ONE_RAW {
        assert(fine * fine >= 0x1_0000_0001_0000_0001 * 0x1_0000_0001_0000_0001)
            by (nonlinear_arith)
            requires
                fine >= 0x1_0000_0001_0000_0001,
        ;
    }
    if fine <= 0x1_0000_0000_0000_0000 - 8 * ONE_RAW {
        let wide = fine + slack;
        assert(wide * wide <= 0xffff_fff9_0000_0000 * 0xffff_fff9_0000_0000) by (nonlinear_arith)
            requires
                0 <= wide <= 0xffff_fff9_0000_0000,
        ;
    }
}

/// A component of a unit vector, divided by a fine length close to `2^64`,
/// stays where it is, up to rounding.
proof fn lemma_requotient(m: int, fine: int)
    requires
        0 <= m <= ONE_RAW,
        0x1_0000_0000_0000_0000 - 8 * ONE_RAW < fine <= 0x1_0000_0000_0000_0000 + ONE_RAW,
    ensures
        m - 1 <= (m * 0x1_0000_0000_0000_0000) / fine <= m + UNIT_TOLERANCE,
{
    let w: int = 0x1_0000_0000_0000_0000int;
    let q = (m * w) / fine;
    lemma_quotient_brackets(m * w, fine);
    if q <= m - 2 {
        assert((q + 1) * fine <= (m - 1) * 0x1_0000_0001_0000_0000) by (nonlinear_arith)
            requires
                0 <= q + 1 <= m - 1,
                0 <= fine <= 0x1_0000_0001_0000_0000,
        ;
        assert((q + 1) * fine == q * fine + fine) by (nonlinear_arith);
        assert(false);
    }
    if q >= m + 9 {
        assert(q * fine >= (m + 9) * 0xffff_fff8_0000_0000) by (nonlinear_arith)
            requires
                q >= m + 9,
                m >= 0,
                fine >= 0xffff_fff8_0000_0000,
        ;
        assert(false);
    }
}

/// Normalizing twice changes nothing but rounding: no component of the
/// vector that was normalized twice differs from that of the vector that was
/// normalized once by more than `UNIT_TOLERANCE` raw units.
pub proof fn lemma_normalized_twice(v: Vector3)
    ensures
        ({
            let once = v.spec_normalized();
            let twice = once.spec_normalized();
            &&& -UNIT_TOLERANCE <= twice.x@ - once.x@ <= UNIT_TOLERANCE
            &&& -UNIT_TOLERANCE <= twice.y@ - once.y@ <= UNIT_TOLERANCE
            &&& -UNIT_TOLERANCE <= twice.z@ - once.z@ <= UNIT_TOLERANCE
        }),
{
    lemma_normalized_zero(v);
    lemma_normalized_zero(Vector3::origin());
    if v.square_sum() > 0 {
        lemma_normalized_square_sum(v);
        let n = v.spec_normalized();
        let fine = n.fine_length();
        let slack = lemma_fine_length(n);
        lemma_fine_of_unit(n.square_sum(), fine, slack);
        lemma_requotient(magnitude(n.x@), fine);
        lemma_requotient(magnitude(n.y@), fine);
        lemma_requotient(magnitude(n.z@), fine);
    }
}

} // verus!
