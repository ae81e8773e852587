use pathtracer::color::Color;
use pathtracer::fixed::{Fixed, ONE_RAW};
use pathtracer::hit::Hit;
use pathtracer::integrator::{
    get_ray_color, get_ray_color_for, helper_axis, roulette, scatter_direction, BOUNCE_THRESHOLD,
    DEPTH_CAP, TENTH_RAW,
};
use pathtracer::material::Material;
use pathtracer::ray::{Intersectable, Ray};
use pathtracer::sphere::Sphere;
use pathtracer::vector::Vector3;
use rand::rngs::StdRng;
use rand::{Rng, SeedableRng};

fn fx(x: f64) -> Fixed {
    Fixed::from_raw((x * 4294967296.0).round() as i64)
}

fn to_f64(x: Fixed) -> f64 {
    x.raw as f64 / 4294967296.0
}

fn v(x: i32, y: i32, z: i32) -> Vector3 {
    Vector3::new(Fixed::from_int(x), Fixed::from_int(y), Fixed::from_int(z))
}

fn vf(x: f64, y: f64, z: f64) -> Vector3 {
    Vector3::new(fx(x), fx(y), fx(z))
}

fn rgb(r: f64, g: f64, b: f64) -> Color {
    Color::new(fx(r), fx(g), fx(b), Fixed::one())
}

fn bits_of(fraction: f64) -> u64 {
    ((fraction * 4294967296.0) as u64) << 32
}

fn two_spheres() -> Vec<Box<dyn Intersectable>> {
    let blue = Material::new(rgb(0.2, 0.4, 0.8), rgb(0.0, 0.0, 0.0), Fixed::zero());
    let light = Material::new(rgb(1.0, 1.0, 1.0), rgb(2.5, 2.5, 2.5), Fixed::zero());
    vec![
        Box::new(Sphere::new(vf(2.0, 0.0, 0.0), fx(2.0), blue)),
        Box::new(Sphere::new(vf(-2.0, 0.0, -1.0), fx(1.0), light)),
    ]
}

struct Enclosure {
    material: Material,
}

impl Intersectable for Enclosure {
    fn nearest(&self, ray: &Ray) -> Option<Hit> {
        self.intersect(ray)
    }

    fn intersect(&self, ray: &Ray) -> Option<Hit> {
        let point = ray.origin + ray.direction;
        Some(Hit::new(point, -ray.direction, self.material, Fixed::one()))
    }
}

fn furnace(diffuse: Color, emission: Color) -> Vec<Box<dyn Intersectable>> {
    vec![Box::new(Enclosure { material: Material::new(diffuse, emission, Fixed::zero()) })]
}

#[test]
fn thresholds_have_their_values() {
    assert_eq!(BOUNCE_THRESHOLD, 5);
    assert_eq!(DEPTH_CAP, 500);
    assert_eq!(TENTH_RAW, 429496729);
}

#[test]
fn empty_scene_is_black_at_any_depth() {
    let objects: Vec<Box<dyn Intersectable>> = Vec::new();
    let mut rng = StdRng::seed_from_u64(1);
    let rays = [
        Ray::new(v(0, 0, 0), v(0, 0, 1)),
        Ray::new(v(5, -3, 2), vf(0.6, 0.0, -0.8)),
        Ray::new(v(0, 0, 0), v(0, 0, 0)),
    ];
    for ray in rays.iter() {
        for depth in [0u64, 1, 5, 6, 499, 500, 501, u64::MAX] {
            assert_eq!(get_ray_color(ray, &objects, &mut rng, depth), Color::black());
        }
    }
}

#[test]
fn ray_that_misses_everything_is_black() {
    let objects = two_spheres();
    let mut rng = StdRng::seed_from_u64(1);
    let ray = Ray::new(v(0, 50, 0), v(0, 1, 0));
    assert_eq!(get_ray_color(&ray, &objects, &mut rng, 0), Color::black());
}

#[test]
fn emitter_that_scatters_nothing_shows_its_emission() {
    let lamp = Material::new(rgb(0.0, 0.0, 0.0), rgb(1.0, 1.0, 1.0), Fixed::zero());
    let objects: Vec<Box<dyn Intersectable>> =
        vec![Box::new(Sphere::new(v(0, 0, 0), Fixed::one(), lamp))];
    let ray = Ray::new(v(2, 0, 0), v(-1, 0, 0));
    for seed in 0..8 {
        let mut rng = StdRng::seed_from_u64(seed);
        let color = get_ray_color(&ray, &objects, &mut rng, 0);
        assert_eq!(color.r, Fixed::one());
        assert_eq!(color.g, Fixed::one());
        assert_eq!(color.b, Fixed::one());
    }
}

#[test]
fn emitter_shows_its_emission_beyond_the_threshold_too() {
    let lamp = Material::new(rgb(0.0, 0.0, 0.0), rgb(3.0, 2.0, 1.0), Fixed::zero());
    let objects: Vec<Box<dyn Intersectable>> =
        vec![Box::new(Sphere::new(v(0, 0, 0), Fixed::one(), lamp))];
    let ray = Ray::new(v(0, 0, -4), v(0, 0, 1));
    for depth in [3u64, 6, 100, 500, 9000] {
        let mut rng = StdRng::seed_from_u64(depth);
        let color = get_ray_color(&ray, &objects, &mut rng, depth);
        assert_eq!((color.r, color.g, color.b), (fx(3.0), fx(2.0), fx(1.0)));
    }
}

#[test]
fn roulette_leaves_early_bounces_alone() {
    let diffuse = rgb(0.5, 0.25, 0.125);
    for depth in 0..=5u64 {
        for bits in [0u64, 1 << 63, u64::MAX] {
            assert_eq!(roulette(diffuse, depth, bits), Some(diffuse));
        }
    }
}

#[test]
fn roulette_rescales_a_surviving_path() {
    let diffuse = rgb(0.5, 0.25, 0.125);
    let survived = roulette(diffuse, 6, bits_of(0.25)).expect("a draw below the largest channel");
    assert_eq!(survived.r, fx(1.0));
    assert_eq!(survived.g, fx(0.5));
    assert_eq!(survived.b, fx(0.25));
    assert_eq!(survived.a, fx(2.0));
}

#[test]
fn roulette_ends_a_path_on_a_high_draw() {
    let diffuse = rgb(0.5, 0.25, 0.125);
    assert_eq!(roulette(diffuse, 6, bits_of(0.5)), None);
    assert_eq!(roulette(diffuse, 6, bits_of(0.75)), None);
    assert_eq!(roulette(diffuse, 6, u64::MAX), None);
    assert!(roulette(diffuse, 6, bits_of(0.5) - 1).is_some());
}

#[test]
fn roulette_takes_the_largest_of_red_green_and_blue() {
    let bits = bits_of(0.6);
    assert!(roulette(rgb(0.7, 0.1, 0.1), 6, bits).is_some());
    assert!(roulette(rgb(0.1, 0.7, 0.1), 6, bits).is_some());
    assert!(roulette(rgb(0.1, 0.1, 0.7), 6, bits).is_some());
    assert!(roulette(Color::new(fx(0.1), fx(0.1), fx(0.1), fx(0.9)), 6, bits).is_none());
}

#[test]
fn roulette_ends_every_path_at_the_depth_cap() {
    let white = rgb(1.0, 1.0, 1.0);
    assert!(roulette(white, 499, 0).is_some());
    assert_eq!(roulette(white, 500, 0), None);
    assert_eq!(roulette(white, 501, 0), None);
    assert_eq!(roulette(white, u64::MAX, 0), None);
}

#[test]
fn roulette_ends_a_path_on_a_black_surface() {
    assert_eq!(roulette(rgb(0.0, 0.0, 0.0), 6, 0), None);
}

#[test]
fn helper_axis_depends_on_the_lean_along_x() {
    assert_eq!(helper_axis(&v(0, 0, 1)), v(1, 0, 0));
    assert_eq!(helper_axis(&v(0, 1, 0)), v(1, 0, 0));
    assert_eq!(helper_axis(&v(1, 0, 0)), v(0, 1, 0));
    assert_eq!(helper_axis(&v(-1, 0, 0)), v(0, 1, 0));
    let at = Vector3::new(Fixed::from_raw(TENTH_RAW), fx(0.9), Fixed::zero());
    let above = Vector3::new(Fixed::from_raw(TENTH_RAW + 1), fx(0.9), Fixed::zero());
    let below = Vector3::new(Fixed::from_raw(-TENTH_RAW - 1), fx(0.9), Fixed::zero());
    assert_eq!(helper_axis(&at), v(1, 0, 0));
    assert_eq!(helper_axis(&above), v(0, 1, 0));
    assert_eq!(helper_axis(&below), v(0, 1, 0));
}

#[test]
fn helper_axis_is_never_parallel_to_the_normal() {
    let normals = [
        v(1, 0, 0),
        v(-1, 0, 0),
        v(0, 1, 0),
        v(0, -1, 0),
        v(0, 0, 1),
        v(0, 0, -1),
        vf(0.1, 0.99, 0.0).normalized(),
        vf(0.6, 0.0, 0.8),
        vf(-0.36, 0.48, -0.8),
    ];
    for w in normals.iter() {
        let c = Vector3::cross(&helper_axis(w), w);
        let largest = c.x.abs().max(c.y.abs()).max(c.z.abs());
        assert!(largest.raw > TENTH_RAW, "{:?}", w);
    }
}

#[test]
fn scatter_direction_for_zero_draws_is_the_normal() {
    assert_eq!(scatter_direction(&v(0, 0, 1), 0, 0), v(0, 0, 1));
    assert_eq!(scatter_direction(&v(1, 0, 0), 0, 0), v(1, 0, 0));
    assert_eq!(scatter_direction(&v(0, -1, 0), 0, 0), v(0, -1, 0));
}

#[test]
fn scatter_direction_has_exact_components() {
    let direction = scatter_direction(&v(0, 0, 1), bits_of(0.25), bits_of(0.25));
    assert_eq!(direction.x.raw, 2147483648);
    assert_eq!(direction.y.raw, 0);
    assert_eq!(direction.z.raw, 3719550786);
    let opposite = scatter_direction(&v(0, 0, 1), bits_of(0.5), bits_of(0.25));
    assert_eq!(opposite.x.raw, 0);
    assert_eq!(opposite.y.raw, 2147483648);
    assert_eq!(opposite.z.raw, 3719550786);
}

#[test]
fn scatter_direction_around_a_normal_along_an_axis() {
    for w in [v(1, 0, 0), v(-1, 0, 0), v(0, 1, 0), v(0, -1, 0), v(0, 0, 1), v(0, 0, -1)].iter() {
        let direction = scatter_direction(w, bits_of(0.125), bits_of(0.25));
        let along = Vector3::dot(&direction, w);
        assert_eq!(along.raw, 3719550786);
        let across = (direction - *w * along).length();
        assert!((to_f64(across) - 0.5).abs() < 1e-6, "{:?} {}", w, to_f64(across));
        assert!((to_f64(direction.length()) - 1.0).abs() < 1e-6);
    }
}

#[test]
fn scatter_direction_stays_in_the_hemisphere() {
    let normals = [
        vf(0.0, 0.0, 1.0),
        vf(1.0, 0.0, 0.0),
        vf(0.0, 1.0, 0.0),
        vf(-1.0, 0.0, 0.0),
        vf(0.6, 0.0, 0.8),
        vf(-0.36, 0.48, -0.8),
        vf(0.0, -0.6, 0.8),
    ];
    for w in normals.iter() {
        for i in 0..32u64 {
            for j in 0..32u64 {
                let direction = scatter_direction(w, i << 59, j << 59);
                assert!(Vector3::dot(&direction, w).raw >= 0);
                let length = to_f64(direction.length());
                assert!((length - 1.0).abs() < 1e-4, "{}", length);
            }
        }
    }
}

#[test]
fn equal_seeds_give_equal_colors() {
    let objects = two_spheres();
    let ray = Ray::new(vf(0.0, 0.0, -5.0), vf(0.2, 0.0, 1.0).normalized());
    for seed in 0..16 {
        let mut first = StdRng::seed_from_u64(seed);
        let mut second = StdRng::seed_from_u64(seed);
        for _ in 0..8 {
            assert_eq!(
                get_ray_color(&ray, &objects, &mut first, 0),
                get_ray_color(&ray, &objects, &mut second, 0)
            );
        }
    }
}

#[test]
fn the_random_source_decides_the_path() {
    let objects = two_spheres();
    let ray = Ray::new(vf(0.0, 0.0, -5.0), vf(0.2, 0.0, 1.0).normalized());
    let mut seen: Vec<Color> = Vec::new();
    for seed in 0..64 {
        let mut rng = StdRng::seed_from_u64(seed);
        let color = get_ray_color(&ray, &objects, &mut rng, 0);
        if !seen.contains(&color) {
            seen.push(color);
        }
    }
    assert!(seen.len() > 1);
}

#[test]
fn path_in_a_white_furnace_ends_at_the_depth_cap() {
    let glow = Fixed::ratio(1, 512);
    let objects = furnace(rgb(1.0, 1.0, 1.0), Color::new(glow, glow, glow, Fixed::zero()));
    let ray = Ray::new(v(0, 0, 0), v(0, 0, 1));
    let mut rng = StdRng::seed_from_u64(3);
    let color = get_ray_color(&ray, &objects, &mut rng, 0);
    assert_eq!(color.r, Fixed::ratio(501, 512));
    assert_eq!(color.g, Fixed::ratio(501, 512));
    assert_eq!(color.b, Fixed::ratio(501, 512));
}

#[test]
fn grey_furnace_averages_to_twice_its_emission() {
    let objects = furnace(rgb(0.5, 0.5, 0.5), rgb(1.0, 1.0, 1.0));
    let ray = Ray::new(v(0, 0, 0), v(0, 0, 1));
    let mut rng = StdRng::seed_from_u64(11);
    let count = 3000;
    let mut sum = 0.0;
    for _ in 0..count {
        sum += to_f64(get_ray_color(&ray, &objects, &mut rng, 0).r);
    }
    let mean = sum / count as f64;
    assert!((mean - 2.0).abs() < 0.05, "{}", mean);
}

#[test]
fn radiance_is_never_negative_for_positive_materials() {
    let objects = two_spheres();
    let mut rng = StdRng::seed_from_u64(5);
    for i in -4..=4 {
        let ray = Ray::new(vf(0.0, 0.0, -5.0), vf(0.1 * i as f64, 0.0, 1.0).normalized());
        for _ in 0..32 {
            let color = get_ray_color(&ray, &objects, &mut rng, 0);
            assert!(color.r.raw >= 0 && color.g.raw >= 0 && color.b.raw >= 0);
            assert!(color.r.raw < 1000 * ONE_RAW);
        }
    }
}

#[test]
fn given_draws_that_end_the_path_at_the_first_roulette() {
    let objects = furnace(rgb(0.5, 0.5, 0.5), rgb(0.25, 0.25, 0.25));
    let ray = Ray::new(v(0, 0, 0), v(0, 0, 1));
    let draws = vec![u64::MAX; 64];
    let color = get_ray_color_for(&ray, &objects, &draws, 0);
    assert_eq!(color.r, fx(0.49609375));
    assert_eq!(color.g, fx(0.49609375));
    assert_eq!(color.b, fx(0.49609375));
}

#[test]
fn missing_draws_count_as_zero() {
    let objects = furnace(rgb(0.5, 0.5, 0.5), rgb(0.25, 0.25, 0.25));
    let ray = Ray::new(v(0, 0, 0), v(0, 0, 1));
    let color = get_ray_color_for(&ray, &objects, &Vec::new(), 0);
    assert_eq!(color.r, fx(2.42578125));
    let zeros = vec![0u64; 2000];
    assert_eq!(get_ray_color_for(&ray, &objects, &zeros, 0), color);
    let few = vec![0u64; 7];
    assert_eq!(get_ray_color_for(&ray, &objects, &few, 0), color);
}

#[test]
fn given_draws_from_a_depth_beyond_the_threshold() {
    let objects = furnace(rgb(0.5, 0.25, 0.125), rgb(1.0, 1.0, 1.0));
    let ray = Ray::new(v(0, 0, 0), v(0, 0, 1));
    let ended = get_ray_color_for(&ray, &objects, &vec![bits_of(0.5)], 498);
    assert_eq!((ended.r, ended.g, ended.b), (fx(1.0), fx(1.0), fx(1.0)));
    let draws = vec![bits_of(0.25), 0, 0, bits_of(0.25), 0, 0, 0];
    let color = get_ray_color_for(&ray, &objects, &draws, 498);
    assert_eq!(color.r, fx(3.0));
    assert_eq!(color.g, fx(1.75));
    assert_eq!(color.b, fx(1.3125));
}

#[test]
fn given_draws_of_the_generator_give_its_color() {
    let objects = two_spheres();
    for seed in 0..32 {
        let ray = Ray::new(vf(0.0, 0.0, -5.0), vf(0.02 * seed as f64, 0.0, 1.0).normalized());
        let mut source = StdRng::seed_from_u64(seed);
        let mut draws: Vec<u64> = Vec::new();
        for _ in 0..1600 {
            draws.push(source.gen::<u64>());
        }
        let mut rng = StdRng::seed_from_u64(seed);
        assert_eq!(
            get_ray_color(&ray, &objects, &mut rng, 0),
            get_ray_color_for(&ray, &objects, &draws, 0)
        );
    }
}

#[test]
fn given_draws_on_an_empty_scene_are_black() {
    let objects: Vec<Box<dyn Intersectable>> = Vec::new();
    let ray = Ray::new(v(0, 0, 0), v(0, 0, 1));
    assert_eq!(get_ray_color_for(&ray, &objects, &vec![1, 2, 3], 0), Color::black());
    assert_eq!(get_ray_color_for(&ray, &objects, &Vec::new(), 700), Color::black());
}

#[test]
fn survival_probability_times_survivor_is_the_reflectance() {
    let samples = [
        rgb(0.5, 0.25, 0.125),
        rgb(0.2, 0.4, 0.8),
        rgb(1.0, 1.0, 1.0),
        rgb(0.3, 0.3, 0.0),
        rgb(0.001, 0.0007, 0.0009),
        Color::new(Fixed::from_raw(3), Fixed::from_raw(1), Fixed::from_raw(2), Fixed::one()),
        Color::new(Fixed::from_raw(1), Fixed::from_raw(1), Fixed::from_raw(0), Fixed::one()),
    ];
    for diffuse in samples.iter() {
        let p = diffuse.max_component();
        let survivor = roulette(*diffuse, 6, 0).expect("a draw of zero survives");
        assert_eq!(survivor.max_component(), Fixed::one());
        for (before, after) in [(diffuse.r, survivor.r), (diffuse.g, survivor.g), (diffuse.b, survivor.b)] {
            let back = (p * after).raw;
            assert!(before.raw - 1 <= back && back <= before.raw, "{} {}", before.raw, back);
        }
    }
}

#[test]
fn nothing_is_drawn_where_nothing_is_hit() {
    let objects = two_spheres();
    let away = Ray::new(v(0, 50, 0), v(0, 1, 0));
    let empty: Vec<Box<dyn Intersectable>> = Vec::new();
    for depth in [0u64, 6, 700] {
        let mut rng = StdRng::seed_from_u64(17);
        let before = rng.clone();
        get_ray_color(&away, &objects, &mut rng, depth);
        assert_eq!(rng, before);
        get_ray_color(&away, &empty, &mut rng, depth);
        assert_eq!(rng, before);
    }
    let toward = Ray::new(vf(0.0, 0.0, -5.0), vf(0.2, 0.0, 1.0).normalized());
    let mut rng = StdRng::seed_from_u64(17);
    let before = rng.clone();
    get_ray_color(&toward, &objects, &mut rng, 0);
    assert_ne!(rng, before);
}

#[test]
fn sampled_direction_has_the_stated_part_along_the_normal() {
    let normals = [
        v(1, 0, 0),
        v(0, -1, 0),
        v(0, 0, 1),
        vf(0.6, 0.0, 0.8),
        vf(0.3, -1.7, 2.9).normalized(),
        vf(-0.0999, 0.7, 0.7).normalized(),
        vf(0.1001, 0.7, -0.7).normalized(),
    ];
    for w in normals.iter() {
        for i in 0..64u64 {
            for j in 0..64u64 {
                let radius_bits = (j << 58) | 0x3ff_ffff_ffff;
                let direction = scatter_direction(w, i << 58, radius_bits);
                let along = Vector3::dot(&direction, w).raw;
                let z = (Fixed::one() - Fixed::from_unit_bits(radius_bits)).sqrt().raw;
                assert!((along - z).abs() <= 37, "{:?} {} {}", w, along, z);
                assert!(along > 0);
            }
        }
    }
    let grazing = scatter_direction(&v(0, 0, 1), 12345 << 40, u64::MAX);
    assert!(Vector3::dot(&grazing, &v(0, 0, 1)).raw >= 65536 - 37);
}

#[test]
fn scattered_ray_leaves_on_the_side_of_the_normal() {
    let normals = [v(1, 0, 0), v(0, 1, 0), vf(0.6, 0.0, -0.8), vf(0.3, -1.7, 2.9).normalized()];
    let material = Material::new(rgb(0.5, 0.5, 0.5), rgb(0.0, 0.0, 0.0), Fixed::zero());
    for w in normals.iter() {
        let hit = Hit::new(v(0, 0, 0), *w, material, Fixed::one());
        for i in 0..32u64 {
            for j in 0..32u64 {
                let direction = scatter_direction(&hit.normal, i << 59, (j << 59) | 0x7ff_ffff_ffff_ffff);
                assert!(Vector3::dot(&direction.normalized(), w).raw > 0);
            }
        }
    }
}
