//! The sampling loop: each pixel is the average of independent estimates of
//! the light that arrives along its primary ray.

use crate::camera::Camera;
use crate::color::Color;
use crate::fixed::{ratio_raw, Fixed};
use crate::integrator::{get_ray_color, is_radiance};
use crate::ray::{Intersectable, Ray};
use crate::scene::Surfaces;
use rand::rngs::StdRng;
use vstd::prelude::*;

verus! {

/// The sum of the samples, each multiplied by `weight`, added up from the
/// first sample to the last.
pub open spec fn weighted_sum(samples: Seq<Color>, weight: Fixed) -> Color
    decreases samples.len(),
{
    if samples.len() == 0 {
        Color::spec_black()
    } else {
        weighted_sum(samples.drop_last(), weight).plus(samples.last().scaled(weight))
    }
}

/// The weight of one sample among `count`: `1 / count`, rounded down.
pub open spec fn sample_weight(count: u32) -> Fixed {
    Fixed::of(ratio_raw(1, count as int))
}

/// `color` is an estimate of the light along `ray` from `count` samples: the
/// sum of `count` estimates by single paths from depth zero, each weighted
/// by `1 / count`.
pub open spec fn is_pixel_estimate(objects: Surfaces, ray: Ray, count: u32, color: Color) -> bool {
    exists|samples: Seq<Color>|
        {
            &&& samples.len() == count
            &&& forall|i: int| 0 <= i < count ==> is_radiance(objects, ray, 0, #[trigger] samples[i])
            &&& color == weighted_sum(samples, sample_weight(count))
        }
}

/// The position of the pixel `(x, y)` in a frame buffer of rows of `width`
/// pixels.
pub open spec fn pixel_index(x: int, y: int, width: int) -> int {
    x + y * width
}

/// A scene: the surfaces in the order of their declaration, the camera, the
/// size of the image in pixels, and the number of samples for each pixel.
pub struct Scene {
    pub objects: Vec<Box<dyn Intersectable>>,
    pub camera: Camera,
    pub width: u32,
    pub height: u32,
    pub samples: u32,
}

impl Scene {
    /// The scene without surfaces for an image of `width` by `height` pixels
    /// and one sample for each pixel, seen by `camera`.
    pub fn new(camera: Camera, width: u32, height: u32) -> (scene: Scene)
        ensures
            scene.objects@.len() == 0,
            scene.camera == camera,
            scene.width == width,
            scene.height == height,
            scene.samples == 1,
    {
        Scene { objects: Vec::new(), camera, width, height, samples: 1 }
    }

    /// Declares a further surface, behind those declared before.
    pub fn add(&mut self, surface: Box<dyn Intersectable>)
        ensures
            final(self).objects@ == old(self).objects@.push(surface),
            final(self).camera == old(self).camera,
            final(self).width == old(self).width,
            final(self).height == old(self).height,
            final(self).samples == old(self).samples,
    {
        self.objects.push(surface);
    }

    /// Renders the scene into a frame buffer in row-major order.
    pub fn render(&self, rng: &mut StdRng) -> (pixels: Vec<Color>)
        ensures
            pixels.len() == self.width * self.height,
            forall|x: int, y: int|
                0 <= x < self.width && 0 <= y < self.height ==> is_pixel_estimate(
                    self.objects@,
                    self.camera.spec_primary_ray(x as u32, y as u32, self.width, self.height),
                    self.samples,
                    #[trigger] pixels[pixel_index(x, y, self.width as int)],
                ),
    {
        render(&self.camera, &self.objects, rng, self.width, self.height, self.samples)
    }
}

/// Estimates the light along `ray` as the average of `num_samples`
/// independent paths.
pub fn sample_pixel(
    ray: &Ray,
    objects: &Vec<Box<dyn Intersectable>>,
    rng: &mut StdRng,
    num_samples: u32,
) -> (pixel: Color)
    ensures
        is_pixel_estimate(objects@, *ray, num_samples, pixel),
{
    let weight = Fixed::ratio(1, num_samples);
    let mut pixel = Color::black();
    let ghost mut samples: Seq<Color> = Seq::empty();
    let mut taken: u32 = 0;
    while taken < num_samples
        invariant
            taken <= num_samples,
            weight == sample_weight(num_samples),
            samples.len() == taken,
            forall|i: int| 0 <= i < taken ==> is_radiance(objects@, *ray, 0, #[trigger] samples[i]),
            pixel == weighted_sum(samples, weight),
        decreases num_samples - taken,
    {
        let sample = get_ray_color(ray, objects, rng, 0);
        proof {
            let before = samples;
            samples = samples.push(sample);
            assert(samples.drop_last() =~= before);
        }
        pixel = pixel + sample * weight;
        taken += 1;
    }
    pixel
}

/// Renders an image of `width` by `height` pixels into a frame buffer in
/// row-major order: the pixel `(x, y)` stands at `x + y * width`.
pub fn render(
    camera: &Camera,
    objects: &Vec<Box<dyn Intersectable>>,
    rng: &mut StdRng,
    width: u32,
    height: u32,
    num_samples: u32,
) -> (pixels: Vec<Color>)
    ensures
        pixels.len() == width * height,
        forall|x: int, y: int|
            0 <= x < width && 0 <= y < height ==> is_pixel_estimate(
                objects@,
                camera.spec_primary_ray(x as u32, y as u32, width, height),
                num_samples,
                #[trigger] pixels[pixel_index(x, y, width as int)],
            ),
{
    let mut pixels: Vec<Color> = Vec::new();
    let mut y: u32 = 0;
    while y < height
        invariant
            y <= height,
            pixels.len() == pixel_index(0, y as int, width as int),
            forall|i: int, j: int|
                0 <= i < width && 0 <= j < y ==> is_pixel_estimate(
                    objects@,
                    camera.spec_primary_ray(i as u32, j as u32, width, height),
                    num_samples,
                    #[trigger] pixels[pixel_index(i, j, width as int)],
                ),
        decreases height - y,
    {
        let mut x: u32 = 0;
        while x < width
            invariant
                x <= width,
                y < height,
                    pixels.len() == pixel_index(x as int, y as int, width as int),
                forall|i: int, j: int|
                    0 <= i < width && 0 <= j < y ==> is_pixel_estimate(
                        objects@,
                        camera.spec_primary_ray(i as u32, j as u32, width, height),
                        num_samples,
                        #[trigger] pixels[pixel_index(i, j, width as int)],
                    ),
                forall|i: int|
                    0 <= i < x ==> is_pixel_estimate(
                        objects@,
                        camera.spec_primary_ray(i as u32, y, width, height),
                        num_samples,
                        #[trigger] pixels[pixel_index(i, y as int, width as int)],
                    ),
            decreases width - x,
        {
            let ray = camera.primary_ray(x, y, width, height);
            let pixel = sample_pixel(&ray, objects, rng, num_samples);
            proof {
                lemma_rows_fit(x as int, y as int, width as int, height as int);
            }
            let ghost before = pixels@;
            pixels.push(pixel);
            proof {
                assert forall|i: int, j: int| 0 <= i < width && 0 <= j < y implies pixels[pixel_index(
                    i,
                    j,
                    width as int,
                )] == before[pixel_index(i, j, width as int)] by {
                    lemma_rows_fit(i, j, width as int, y as int);
                }
            }
            x += 1;
        }
        proof {
            assert(pixel_index(width as int, y as int, width as int) == pixel_index(
                0,
                y + 1,
                width as int,
            )) by (nonlinear_arith);
            assert forall|i: int, j: int| 0 <= i < width && 0 <= j < y + 1 implies is_pixel_estimate(
                objects@,
                camera.spec_primary_ray(i as u32, j as u32, width, height),
                num_samples,
                #[trigger] pixels[pixel_index(i, j, width as int)],
            ) by {
                if j == y {
                }
            }
        }
        y += 1;
    }
    assert(height * width == width * height) by (nonlinear_arith);
    pixels
}

/// A pixel inside an image of `width` by `height` pixels stands before the
/// end of the frame buffer.
pub proof fn lemma_rows_fit(x: int, y: int, width: int, height: int)
    requires
        0 <= x < width,
        0 <= y < height,
    ensures
        0 <= pixel_index(x, y, width) < pixel_index(0, height, width),
        pixel_index(0, height, width) == width * height,
{
    assert(x + y * width < height * width) by (nonlinear_arith)
        requires
            0 <= x < width,
            0 <= y < height,
    ;
    assert(0 <= y * width) by (nonlinear_arith)
        requires
            0 <= y,
            0 <= width,
    ;
    assert(height * width == width * height) by (nonlinear_arith);
}

/// Distinct pixels of an image stand at distinct positions of the frame
/// buffer.
pub proof fn lemma_pixel_index_injective(x1: int, y1: int, x2: int, y2: int, width: int)
    requires
        0 <= x1 < width,
        0 <= x2 < width,
        0 <= y1,
        0 <= y2,
        pixel_index(x1, y1, width) == pixel_index(x2, y2, width),
    ensures
        x1 == x2,
        y1 == y2,
{
    if y1 < y2 {
        assert(y1 * width + width <= y2 * width) by (nonlinear_arith)
            requires
                y1 + 1 <= y2,
                0 <= width,
        ;
    } else if y2 < y1 {
        assert(y2 * width + width <= y1 * width) by (nonlinear_arith)
            requires
                y2 + 1 <= y1,
                0 <= width,
        ;
    }
}

} // verus!
