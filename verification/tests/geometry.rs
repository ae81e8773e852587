use pathtracer::color::Color;
use pathtracer::fixed::{Fixed, MAX_RAW, ONE_RAW};
use pathtracer::material::Material;
use pathtracer::ray::{Intersectable, Ray};
use pathtracer::sphere::Sphere;
use pathtracer::vector::Vector3;

fn fx(x: f64) -> Fixed {
    Fixed::from_raw((x * 4294967296.0).round() as i64)
}

fn to_f64(x: Fixed) -> f64 {
    x.raw as f64 / 4294967296.0
}

fn v(x: i32, y: i32, z: i32) -> Vector3 {
    Vector3::new(Fixed::from_int(x), Fixed::from_int(y), Fixed::from_int(z))
}

fn vf(x: f64, y: f64, z: f64) -> Vector3 {
    Vector3::new(fx(x), fx(y), fx(z))
}

fn grey() -> Material {
    let half = Fixed::ratio(1, 2);
    Material::new(Color::new(half, half, half, Fixed::one()), Color::black(), Fixed::zero())
}

fn unit_sphere() -> Sphere {
    Sphere::new(v(0, 0, 0), Fixed::one(), grey())
}

#[test]
fn new_keeps_the_components() {
    let a = Vector3::new(fx(1.0), fx(-2.0), fx(0.5));
    assert_eq!(a.x, fx(1.0));
    assert_eq!(a.y, fx(-2.0));
    assert_eq!(a.z, fx(0.5));
}

#[test]
fn dot_product_of_known_vectors() {
    assert_eq!(Vector3::dot(&v(1, 2, 3), &v(4, -5, 6)), Fixed::from_int(12));
    assert_eq!(Vector3::dot(&v(1, 0, 0), &v(0, 1, 0)), Fixed::zero());
    assert_eq!(Vector3::dot(&vf(0.5, 0.5, 0.0), &vf(0.5, 0.25, 9.0)), fx(0.375));
}

#[test]
fn dot_product_is_commutative() {
    let a = vf(1.25, -3.5, 0.0078125);
    let b = vf(-7.0, 0.3, 12.75);
    assert_eq!(Vector3::dot(&a, &b), Vector3::dot(&b, &a));
    let c = Vector3::new(Fixed::from_raw(MAX_RAW), Fixed::from_raw(-5), Fixed::from_raw(77));
    assert_eq!(Vector3::dot(&a, &c), Vector3::dot(&c, &a));
}

#[test]
fn cross_product_is_right_handed() {
    assert_eq!(Vector3::cross(&v(1, 0, 0), &v(0, 1, 0)), v(0, 0, 1));
    assert_eq!(Vector3::cross(&v(0, 1, 0), &v(0, 0, 1)), v(1, 0, 0));
    assert_eq!(Vector3::cross(&v(0, 0, 1), &v(1, 0, 0)), v(0, 1, 0));
    assert_eq!(Vector3::cross(&v(1, 2, 3), &v(4, 5, 6)), v(-3, 6, -3));
}

#[test]
fn cross_product_changes_sign_when_swapped() {
    let a = vf(1.25, -3.5, 0.0078125);
    let b = vf(-7.0, 0.3, 12.75);
    assert_eq!(Vector3::cross(&a, &b), -Vector3::cross(&b, &a));
    let c = Vector3::new(Fixed::from_raw(MAX_RAW), Fixed { raw: i64::MIN }, Fixed::from_raw(77));
    assert_eq!(Vector3::cross(&a, &c), -Vector3::cross(&c, &a));
}

#[test]
fn dot_with_itself_is_the_squared_length() {
    let a = v(3, 4, 0);
    assert_eq!(Vector3::dot(&a, &a), Fixed::from_int(25));
    assert_eq!(a.length(), Fixed::from_int(5));
    let b = vf(0.3, -1.7, 2.9);
    let d = Vector3::dot(&b, &b).raw as i128;
    let l = b.length().raw as i128;
    assert!(d >= 0);
    assert!(l * l <= (d << 32) && (d << 32) < (l + 1) * (l + 1));
}

#[test]
fn normalized_has_exact_components() {
    let n = v(3, 4, 0).normalized();
    assert_eq!(n.x.raw, 2576980377);
    assert_eq!(n.y.raw, 3435973836);
    assert_eq!(n.z.raw, 0);
    assert_eq!(v(0, 0, 9).normalized(), v(0, 0, 1));
    assert_eq!(v(-2, 0, 0).normalized(), v(-1, 0, 0));
}

#[test]
fn normalized_has_unit_length() {
    let samples = [
        vf(3.0, 4.0, 0.0),
        vf(0.3, -1.7, 2.9),
        vf(-100.0, 250.0, 7.0),
        vf(0.004, 0.0, 0.0),
        vf(0.01, -0.02, 0.005),
        vf(16384.0, 16384.0, -16384.0),
        vf(1.0, 1.0, 1.0),
        vf(100000.0, 0.0, 0.0),
        vf(-2000000.0, 300000.0, 46341.0),
        Vector3::new(Fixed::from_raw(100000), Fixed::zero(), Fixed::zero()),
        Vector3::new(Fixed::from_raw(1), Fixed::from_raw(1), Fixed::zero()),
        Vector3::new(Fixed::from_raw(-3), Fixed::from_raw(2), Fixed::from_raw(1)),
        Vector3::new(Fixed::from_raw(MAX_RAW), Fixed::from_raw(MAX_RAW), Fixed::from_raw(-MAX_RAW)),
        Vector3::new(Fixed { raw: i64::MIN }, Fixed { raw: i64::MIN }, Fixed { raw: i64::MIN }),
    ];
    for a in samples.iter() {
        let n = a.normalized();
        let l = n.length().raw;
        assert!(ONE_RAW - 8 <= l && l <= ONE_RAW, "{:?} {}", a, l);
        let exact = (n.x.raw as i128).pow(2) + (n.y.raw as i128).pow(2) + (n.z.raw as i128).pow(2);
        let one = 1i128 << 64;
        assert!(one - (12 << 32) <= exact && exact <= one + (2 << 32), "{:?}", a);
    }
}

#[test]
fn normalized_has_exact_components_for_short_and_long_vectors() {
    let short = Vector3::new(Fixed::from_raw(100000), Fixed::zero(), Fixed::zero());
    assert_eq!(short.normalized(), v(1, 0, 0));
    let shorter = Vector3::new(Fixed::from_raw(1), Fixed::from_raw(1), Fixed::zero());
    assert_eq!(shorter.normalized().x.raw, 3037000500);
    assert_eq!(shorter.normalized().y.raw, 3037000500);
    let long =
        Vector3::new(Fixed::from_raw(MAX_RAW), Fixed::from_raw(MAX_RAW), Fixed::from_raw(-MAX_RAW));
    assert_eq!(long.normalized().x.raw, 2479700524);
    assert_eq!(long.normalized().z.raw, -2479700524);
    assert_eq!(Vector3::new(Fixed { raw: i64::MIN }, fx(0.0), fx(0.0)).normalized(), v(-1, 0, 0));
    assert_eq!(vf(100000.0, 0.0, 0.0).normalized(), v(1, 0, 0));
}

#[test]
fn normalizing_twice_changes_nothing() {
    let samples = [
        vf(3.0, 4.0, 0.0),
        vf(0.3, -1.7, 2.9),
        vf(-100.0, 250.0, 7.0),
        vf(1.0, 1.0, 1.0),
        Vector3::new(Fixed::from_raw(100000), Fixed::zero(), Fixed::zero()),
        Vector3::new(Fixed::from_raw(-3), Fixed::from_raw(2), Fixed::from_raw(1)),
        Vector3::new(Fixed::from_raw(MAX_RAW), Fixed::from_raw(5), Fixed::from_raw(-MAX_RAW)),
    ];
    for a in samples.iter() {
        let once = a.normalized();
        let twice = once.normalized();
        assert!((once.x.raw - twice.x.raw).abs() <= 1, "{:?}", a);
        assert!((once.y.raw - twice.y.raw).abs() <= 1, "{:?}", a);
        assert!((once.z.raw - twice.z.raw).abs() <= 1, "{:?}", a);
    }
    assert_eq!(v(0, 0, 0).normalized().normalized(), v(0, 0, 0));
}

#[test]
fn the_zero_vector_is_normalized_to_itself() {
    assert_eq!(v(0, 0, 0).normalized(), v(0, 0, 0));
}

#[test]
fn vectors_combine_component_by_component() {
    let a = vf(1.0, 2.0, 3.0);
    let b = vf(0.5, -4.0, 2.0);
    assert_eq!(a + b, vf(1.5, -2.0, 5.0));
    assert_eq!(a - b, vf(0.5, 6.0, 1.0));
    assert_eq!(a * b, vf(0.5, -8.0, 6.0));
    assert_eq!(a / b, vf(2.0, -0.5, 1.5));
    assert_eq!(-a, vf(-1.0, -2.0, -3.0));
}

#[test]
fn vectors_combine_with_numbers_on_either_side() {
    let a = vf(1.0, 2.0, 4.0);
    let t = fx(2.0);
    assert_eq!(a + t, vf(3.0, 4.0, 6.0));
    assert_eq!(a - t, vf(-1.0, 0.0, 2.0));
    assert_eq!(a * t, vf(2.0, 4.0, 8.0));
    assert_eq!(a / t, vf(0.5, 1.0, 2.0));
    assert_eq!(t + a, vf(3.0, 4.0, 6.0));
    assert_eq!(t - a, vf(1.0, 0.0, -2.0));
    assert_eq!(t * a, vf(2.0, 4.0, 8.0));
    assert_eq!(t / a, vf(2.0, 1.0, 0.5));
}

#[test]
fn vectors_are_updated_in_place() {
    let b = vf(0.5, -4.0, 2.0);
    let t = fx(2.0);
    let mut a = vf(1.0, 2.0, 3.0);
    a.add_assign(b);
    assert_eq!(a, vf(1.5, -2.0, 5.0));
    a.sub_assign(b);
    assert_eq!(a, vf(1.0, 2.0, 3.0));
    a.mul_assign(b);
    assert_eq!(a, vf(0.5, -8.0, 6.0));
    a.div_assign(b);
    assert_eq!(a, vf(1.0, 2.0, 3.0));
    a.add_assign_scalar(t);
    assert_eq!(a, vf(3.0, 4.0, 5.0));
    a.sub_assign_scalar(t);
    assert_eq!(a, vf(1.0, 2.0, 3.0));
    a.mul_assign_scalar(t);
    assert_eq!(a, vf(2.0, 4.0, 6.0));
    a.div_assign_scalar(t);
    assert_eq!(a, vf(1.0, 2.0, 3.0));
}

#[test]
fn unit_sphere_hit_head_on() {
    let ray = Ray::new(v(2, 0, 0), v(-1, 0, 0));
    let hit = unit_sphere().intersect(&ray).expect("the ray meets the sphere");
    assert_eq!(hit.position, v(1, 0, 0));
    assert_eq!(hit.normal, v(1, 0, 0));
    assert_eq!(hit.distance, Fixed::one());
    assert_eq!(hit.material, grey());
}

#[test]
fn sphere_behind_the_ray_is_missed() {
    let ray = Ray::new(v(2, 0, 0), v(1, 0, 0));
    assert!(unit_sphere().intersect(&ray).is_none());
    let slanted = Ray::new(v(0, 3, 0), vf(0.6, 0.8, 0.0));
    assert!(unit_sphere().intersect(&slanted).is_none());
}

#[test]
fn origin_inside_with_the_center_behind_is_missed() {
    let ray = Ray::new(vf(0.5, 0.0, 0.0), v(1, 0, 0));
    assert!(unit_sphere().intersect(&ray).is_none());
}

#[test]
fn origin_inside_with_the_center_ahead_hits_the_far_side() {
    let ray = Ray::new(vf(-0.5, 0.0, 0.0), v(1, 0, 0));
    let hit = unit_sphere().intersect(&ray).expect("the far side is ahead");
    assert_eq!(hit.distance, fx(1.5));
    assert_eq!(hit.position, v(1, 0, 0));
    assert_eq!(hit.normal, v(-1, 0, 0));
}

#[test]
fn ray_passing_beside_the_sphere_is_missed() {
    let ray = Ray::new(v(2, 2, 0), v(-1, 0, 0));
    assert!(unit_sphere().intersect(&ray).is_none());
}

#[test]
fn grazing_ray_touches_the_sphere() {
    let ray = Ray::new(v(2, 1, 0), v(-1, 0, 0));
    let hit = unit_sphere().intersect(&ray).expect("the ray touches the sphere");
    assert_eq!(hit.distance, Fixed::from_int(2));
    assert_eq!(hit.position, v(0, 1, 0));
    assert_eq!(hit.normal, v(0, 1, 0));
}

#[test]
fn sphere_of_radius_zero_is_a_point() {
    let point = Sphere::new(v(0, 0, 0), Fixed::zero(), grey());
    let ray = Ray::new(v(2, 0, 0), v(-1, 0, 0));
    let hit = point.intersect(&ray).expect("the ray runs through the point");
    assert_eq!(hit.distance, Fixed::from_int(2));
    assert_eq!(hit.position, v(0, 0, 0));
    assert_eq!(hit.normal, v(0, 0, 0));
    let beside = Ray::new(v(2, 1, 0), v(-1, 0, 0));
    assert!(point.intersect(&beside).is_none());
}

#[test]
fn sphere_away_from_the_origin() {
    let sphere = Sphere::new(v(0, 0, 10), Fixed::from_int(2), grey());
    let ray = Ray::new(v(0, 0, -5), v(0, 0, 1));
    let hit = sphere.intersect(&ray).expect("the sphere is ahead");
    assert_eq!(hit.distance, Fixed::from_int(13));
    assert_eq!(hit.position, v(0, 0, 8));
    assert_eq!(hit.normal, v(0, 0, -1));
}

#[test]
fn reported_normal_never_points_along_the_ray() {
    let sphere = Sphere::new(vf(0.25, -0.5, 6.0), fx(1.75), grey());
    let mut hits = 0;
    for i in -8..=8 {
        for j in -8..=8 {
            for k in 0..3 {
                let origin = vf(0.3 * k as f64, -0.2 * k as f64, 2.5 * k as f64);
                let direction = vf(i as f64 * 0.05, j as f64 * 0.05, 1.0).normalized();
                let ray = Ray::new(origin, direction);
                if let Some(hit) = sphere.intersect(&ray) {
                    hits += 1;
                    assert!(Vector3::dot(&hit.normal, &ray.direction).raw <= 0);
                    assert!(hit.distance.raw >= 0);
                    assert_eq!(hit.position, ray.origin + ray.direction * hit.distance);
                }
            }
        }
    }
    assert!(hits > 100);
}

/// The gap between the squared distance of the hit from the center and the
/// squared radius, and the largest gap that the rounding and the length of
/// the direction allow, both in units of `2^-64`.
fn surface_gap_and_slack(sphere: &Sphere, ray: &Ray) -> Option<(f64, f64)> {
    let hit = sphere.intersect(ray)?;
    let one = 4294967296.0f64;
    let off = [
        (hit.position.x.raw - sphere.position.x.raw) as f64,
        (hit.position.y.raw - sphere.position.y.raw) as f64,
        (hit.position.z.raw - sphere.position.z.raw) as f64,
    ];
    let radius = sphere.radius.raw as f64;
    let gap = (off[0] * off[0] + off[1] * off[1] + off[2] * off[2] - radius * radius).abs();
    let d = ray.direction;
    let excess = ((d.x.raw as i128).pow(2) + (d.y.raw as i128).pow(2) + (d.z.raw as i128).pow(2)
        - (1i128 << 64))
        .abs() as f64;
    let t = hit.distance.raw as f64;
    let reach = off[0].abs().max(off[1].abs()).max(off[2].abs());
    let l = sphere.position - ray.origin;
    let tca = Vector3::dot(&l, &ray.direction).raw as f64;
    let thc = (t - tca).abs();
    let slack = (2.0 * thc + 6.0 * t + 6.0 * reach + 4.0) + excess * (t * t) / (one * one);
    Some((gap, slack))
}

#[test]
fn hit_on_a_small_sphere_far_away_lies_on_its_surface() {
    let sphere = Sphere::new(vf(-20.43, 54.40, -66.69), fx(0.1093), grey());
    let origin = vf(74.54, 84.32, 62.18);
    let ray = Ray::new(origin, (sphere.position - origin).normalized());
    let (gap, slack) = surface_gap_and_slack(&sphere, &ray).expect("the ray aims at the center");
    assert!(gap <= slack * 1.000001, "{} {}", gap, slack);
}

#[test]
fn hits_lie_on_the_surface() {
    let mut state: u64 = 12345;
    let mut next = move || {
        state = state.wrapping_mul(6364136223846793005).wrapping_add(1442695040888963407);
        ((state >> 11) as f64) / ((1u64 << 53) as f64)
    };
    let mut hits = 0;
    for _ in 0..4000 {
        let center = vf(next() * 200.0 - 100.0, next() * 200.0 - 100.0, next() * 200.0 - 100.0);
        let origin = vf(next() * 200.0 - 100.0, next() * 200.0 - 100.0, next() * 200.0 - 100.0);
        let radius = 0.1 + next() * 99.9;
        let aim = center
            + vf(
                (next() - 0.5) * radius * 1.2,
                (next() - 0.5) * radius * 1.2,
                (next() - 0.5) * radius * 1.2,
            );
        let sphere = Sphere::new(center, fx(radius), grey());
        let ray = Ray::new(origin, (aim - origin).normalized());
        if let Some((gap, slack)) = surface_gap_and_slack(&sphere, &ray) {
            hits += 1;
            assert!(gap <= slack * 1.000001, "{} {}", gap, slack);
            let hit = sphere.intersect(&ray).expect("a hit was found");
            assert!(Vector3::dot(&hit.normal, &ray.direction).raw <= 0);
        }
    }
    assert!(hits > 1000);
}

#[test]
fn hits_along_an_axis_lie_on_the_surface_up_to_rounding() {
    let mut state: u64 = 99;
    let mut next = move || {
        state = state.wrapping_mul(6364136223846793005).wrapping_add(1442695040888963407);
        ((state >> 11) as f64) / ((1u64 << 53) as f64)
    };
    let mut hits = 0;
    for _ in 0..2000 {
        let radius = 0.1 + next() * 99.9;
        let center = vf(next() * 200.0 - 100.0, next() * 200.0 - 100.0, next() * 200.0 - 100.0);
        let origin = center + vf(-150.0 - next() * 50.0, (next() - 0.5) * radius, (next() - 0.5) * radius);
        let sphere = Sphere::new(center, fx(radius), grey());
        let ray = Ray::new(origin, v(1, 0, 0));
        if let Some(hit) = sphere.intersect(&ray) {
            hits += 1;
            let off = hit.position - center;
            let exact =
                (off.x.raw as f64).powi(2) + (off.y.raw as f64).powi(2) + (off.z.raw as f64).powi(2);
            let distance = exact.sqrt() / 4294967296.0;
            assert!((distance - to_f64(sphere.radius)).abs() < 1e-6, "{}", distance);
        }
    }
    assert!(hits > 1000);
}

#[test]
fn miss_is_decided_by_the_squared_offset() {
    let hit = unit_sphere()
        .intersect(&Ray::new(v(3, 0, 0), v(-2, 0, 0)))
        .expect("the squared offset is below the squared radius");
    let root: i64 = 22726830708;
    assert_eq!(hit.distance.raw, 6 * ONE_RAW - root);
    assert_eq!(hit.position.x.raw, 3 * ONE_RAW - 2 * hit.distance.raw);
    assert!(unit_sphere().intersect(&Ray::new(v(2, 2, 0), v(-1, 0, 0))).is_none());
    assert!(unit_sphere().intersect(&Ray::new(v(2, 1, 0), v(-1, 0, 0))).is_some());
    let above = Ray::new(Vector3::new(fx(2.0), Fixed::from_raw(ONE_RAW + 1), fx(0.0)), v(-1, 0, 0));
    assert!(unit_sphere().intersect(&above).is_none());
}

#[test]
fn hit_point_lies_on_the_sphere() {
    let sphere = Sphere::new(vf(0.25, -0.5, 6.0), fx(1.75), grey());
    let ray = Ray::new(v(0, 0, 0), vf(0.1, -0.05, 1.0).normalized());
    let hit = sphere.intersect(&ray).expect("the sphere is ahead");
    let off = (hit.position - sphere.position).length();
    assert!((to_f64(off) - 1.75).abs() < 1e-6);
}
