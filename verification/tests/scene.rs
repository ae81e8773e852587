use pathtracer::color::Color;
use pathtracer::fixed::Fixed;
use pathtracer::hit::Hit;
use pathtracer::material::Material;
use pathtracer::ray::{Intersectable, Ray};
use pathtracer::scene::get_closest_hit;
use pathtracer::sphere::Sphere;
use pathtracer::vector::Vector3;

struct Backdrop {
    distance: Fixed,
    material: Material,
}

impl Intersectable for Backdrop {
    fn nearest(&self, ray: &Ray) -> Option<Hit> {
        self.intersect(ray)
    }

    fn intersect(&self, ray: &Ray) -> Option<Hit> {
        let point = ray.origin + ray.direction * self.distance;
        Some(Hit::new(point, -ray.direction, self.material, self.distance))
    }
}

fn v(x: i32, y: i32, z: i32) -> Vector3 {
    Vector3::new(Fixed::from_int(x), Fixed::from_int(y), Fixed::from_int(z))
}

fn plain(shade: i32) -> Material {
    let c = Fixed::from_int(shade);
    Material::new(Color::new(c, c, c, Fixed::one()), Color::black(), Fixed::zero())
}

fn ball(z: i32, radius: i32, shade: i32) -> Box<dyn Intersectable> {
    Box::new(Sphere::new(v(0, 0, z), Fixed::from_int(radius), plain(shade)))
}

fn along_z() -> Ray {
    Ray::new(v(0, 0, 0), v(0, 0, 1))
}

#[test]
fn empty_scene_gives_no_hit() {
    let objects: Vec<Box<dyn Intersectable>> = Vec::new();
    assert!(get_closest_hit(&along_z(), &objects).is_none());
}

#[test]
fn scene_that_is_missed_gives_no_hit() {
    let objects = vec![ball(-10, 1, 1), ball(-20, 2, 2)];
    assert!(get_closest_hit(&along_z(), &objects).is_none());
}

#[test]
fn single_surface_is_the_closest() {
    let objects = vec![ball(10, 1, 1)];
    let hit = get_closest_hit(&along_z(), &objects).expect("the sphere is ahead");
    assert_eq!(hit.distance, Fixed::from_int(9));
    assert_eq!(hit.material, plain(1));
}

#[test]
fn nearer_sphere_wins_when_declared_second() {
    let objects = vec![ball(10, 3, 1), ball(8, 3, 2)];
    let hit = get_closest_hit(&along_z(), &objects).expect("both spheres are ahead");
    assert_eq!(hit.material, plain(2));
    assert_eq!(hit.distance, Fixed::from_int(5));
}

#[test]
fn nearer_sphere_wins_when_declared_first() {
    let objects = vec![ball(8, 3, 2), ball(10, 3, 1)];
    let hit = get_closest_hit(&along_z(), &objects).expect("both spheres are ahead");
    assert_eq!(hit.material, plain(2));
    assert_eq!(hit.distance, Fixed::from_int(5));
}

#[test]
fn nearest_of_many_wins_wherever_it_stands() {
    for place in 0..5 {
        let mut objects: Vec<Box<dyn Intersectable>> = Vec::new();
        for i in 0..5 {
            if i == place {
                objects.push(ball(6, 1, 9));
            } else {
                objects.push(ball(20 + 3 * i, 1, i));
            }
        }
        let hit = get_closest_hit(&along_z(), &objects).expect("all spheres are ahead");
        assert_eq!(hit.material, plain(9));
        assert_eq!(hit.distance, Fixed::from_int(5));
    }
}

#[test]
fn first_declared_wins_an_exact_tie() {
    let objects = vec![ball(10, 1, 1), ball(10, 1, 2), ball(11, 2, 3)];
    let hit = get_closest_hit(&along_z(), &objects).expect("the spheres are ahead");
    assert_eq!(hit.distance, Fixed::from_int(9));
    assert_eq!(hit.material, plain(1));
}

#[test]
fn surfaces_that_are_missed_are_passed_over() {
    let objects = vec![ball(-10, 1, 1), ball(12, 1, 2), ball(-3, 1, 3)];
    let hit = get_closest_hit(&along_z(), &objects).expect("one sphere is ahead");
    assert_eq!(hit.material, plain(2));
}

#[test]
fn a_surface_of_another_kind_is_found() {
    let objects: Vec<Box<dyn Intersectable>> = vec![
        ball(10, 1, 1),
        Box::new(Backdrop { distance: Fixed::from_int(7), material: plain(5) }),
    ];
    let hit = get_closest_hit(&along_z(), &objects).expect("the backdrop is always hit");
    assert_eq!(hit.distance, Fixed::from_int(7));
    assert_eq!(hit.material, plain(5));
    assert_eq!(hit.normal, v(0, 0, -1));
}
