//! Rendering: from the rays through a pixel to the pixel, and from pixels to the image.
//!
//! A pixel is the average of several samples. For pixel `(i, j)` of an image `width`
//! wide and `height` high, a sample is taken through the point `((u1 + i) / width,
//! (u2 + j) / height)` of the image, where `u1` and `u2` are drawn uniformly from
//! `[0, 1)`, so that the samples of a pixel are spread over the pixel: this is what
//! smooths edges. The colours of the samples are added up, and the sum is developed into
//! the colour of the pixel: divided by the number of samples, gamma-corrected by taking
//! the square root of every channel, and scaled by `CHANNEL_SCALE_BITS` to the range of
//! a byte. The developed colour is then quantised.
//!
//! The arithmetic is that of three kernels: `place` for the point of the image, `add`
//! for the sum of two colours, and `develop` for the colour of the pixel. With the two
//! kernels of light they make a darkroom.

use vstd::prelude::*;
use crate::camera::Camera;
use crate::camera::Optics;
use crate::config::RenderConfig;
use crate::image::lemma_cell_lies_inside;
use crate::image::lemma_pixels_do_not_overlap;
use crate::image::Image;
use crate::image::Pixel;
use crate::integrator::black;
use crate::integrator::color;
use crate::integrator::lemma_empty_scene_shows_the_background;
use crate::integrator::lit;
use crate::integrator::LightPath;
use crate::materials::Scatterable;
use crate::ray::Ray;
use crate::sampling::draws_from_disk;
use crate::sampling::top_bits;
use crate::sampling::Sampler;
use crate::scalar::Scalar;
use crate::scene::Hittable;
use crate::scene::Scene;
use crate::vector::Vector3;

verus! {

/// The kernels that a render needs besides those of its spheres, surfaces and camera.
pub struct Darkroom<
    B: Fn(Ray) -> Vector3,
    M: Fn(Vector3, Vector3) -> Vector3,
    P: Fn(Scalar, u32, u32) -> Scalar,
    C: Fn(Vector3, Vector3) -> Vector3,
    D: Fn(Vector3, u32) -> Vector3,
> {
    /// The colour of the sky along a ray.
    pub background: B,
    /// A colour dimmed by an attenuation, channel by channel.
    pub attenuate: M,
    /// The coordinate `(u + index) / extent` of a sample.
    pub place: P,
    /// The sum of two colours.
    pub add: C,
    /// The colour of a pixel from the sum of its samples and their number: the average,
    /// gamma-corrected and scaled.
    pub develop: D,
}

impl<
    B: Fn(Ray) -> Vector3,
    M: Fn(Vector3, Vector3) -> Vector3,
    P: Fn(Scalar, u32, u32) -> Scalar,
    C: Fn(Vector3, Vector3) -> Vector3,
    D: Fn(Vector3, u32) -> Vector3,
> Darkroom<B, M, P, C, D> {
    /// Whether every kernel may be called on everything.
    pub open spec fn ready(&self) -> bool {
        &&& lit(self.background, self.attenuate)
        &&& forall|u: Scalar, index: u32, extent: u32| call_requires(self.place, (u, index, extent))
        &&& forall|a: Vector3, b: Vector3| call_requires(self.add, (a, b))
        &&& forall|sum: Vector3, samples: u32| call_requires(self.develop, (sum, samples))
    }
}

/// Whether `colour` is the sample of pixel `(i, j)` that is taken with the sampler
/// `before`, and `after` the sampler when it is taken: two numbers are drawn uniformly
/// and placed inside the pixel, the first across and the second up; a point of the lens
/// is drawn from the unit disk; the camera aims a ray from that point of the lens
/// through that point of the image; and `colour` is the radiance along the path that is
/// found for this ray with what the sampler draws next.
pub open spec fn is_sample<
    H: Hittable,
    S: Scatterable,
    A: Fn(Optics, Scalar, Scalar, Vector3) -> Ray,
    B: Fn(Ray) -> Vector3,
    M: Fn(Vector3, Vector3) -> Vector3,
    P: Fn(Scalar, u32, u32) -> Scalar,
    C: Fn(Vector3, Vector3) -> Vector3,
    D: Fn(Vector3, u32) -> Vector3,
>(
    before: Sampler,
    after: Sampler,
    i: u32,
    j: u32,
    config: &RenderConfig,
    camera: &Camera<A>,
    world: &Scene<H>,
    surface: &S,
    darkroom: &Darkroom<B, M, P, C, D>,
    colour: Vector3,
) -> bool {
    exists|
        u1: Scalar,
        u2: Scalar,
        s: Scalar,
        t: Scalar,
        drawn: Sampler,
        lens: Vector3,
        aimed: Sampler,
        ray: Ray,
        path: LightPath,
    |
        #![trigger
            call_ensures(darkroom.place, (u1, i, config.width()), s),
            call_ensures(darkroom.place, (u2, j, config.height()), t),
            draws_from_disk(drawn, aimed, lens),
            path.follows(world.objects@, surface, ray, 0, aimed, after),
        ]
        {
            &&& u1.encodes(top_bits(before.word(0)), 24)
            &&& u2.encodes(top_bits(before.word(1)), 24)
            &&& drawn.follows(&before, 2)
            &&& call_ensures(darkroom.place, (u1, i, config.width()), s)
            &&& call_ensures(darkroom.place, (u2, j, config.height()), t)
            &&& draws_from_disk(drawn, aimed, lens)
            &&& call_ensures(camera.aim(), (camera.optics(), s, t, lens), ray)
            &&& path.follows(world.objects@, surface, ray, 0, aimed, after)
            &&& path.shines(darkroom.background, darkroom.attenuate, colour)
        }
}

/// Whether `sums` are the running sums of `samples`, from black on.
pub open spec fn adds_up<
    B: Fn(Ray) -> Vector3,
    M: Fn(Vector3, Vector3) -> Vector3,
    P: Fn(Scalar, u32, u32) -> Scalar,
    C: Fn(Vector3, Vector3) -> Vector3,
    D: Fn(Vector3, u32) -> Vector3,
>(darkroom: &Darkroom<B, M, P, C, D>, samples: Seq<Vector3>, sums: Seq<Vector3>) -> bool {
    &&& sums.len() == samples.len() + 1
    &&& sums[0] == black()
    &&& forall|k: int|
        0 <= k < samples.len() ==> call_ensures(
            darkroom.add,
            (sums[k], samples[k]),
            #[trigger] sums[k + 1],
        )
}

/// Whether `pixel` is pixel `(i, j)` as it is rendered with the sampler `before`, and
/// `after` the sampler when it is rendered: as many samples are taken as the
/// configuration asks for, one after the other; their colours are added up, from black
/// on; and `pixel` is the colour developed from their sum, quantised.
pub open spec fn is_pixel<
    H: Hittable,
    S: Scatterable,
    A: Fn(Optics, Scalar, Scalar, Vector3) -> Ray,
    B: Fn(Ray) -> Vector3,
    M: Fn(Vector3, Vector3) -> Vector3,
    P: Fn(Scalar, u32, u32) -> Scalar,
    C: Fn(Vector3, Vector3) -> Vector3,
    D: Fn(Vector3, u32) -> Vector3,
>(
    before: Sampler,
    after: Sampler,
    i: u32,
    j: u32,
    config: &RenderConfig,
    camera: &Camera<A>,
    world: &Scene<H>,
    surface: &S,
    darkroom: &Darkroom<B, M, P, C, D>,
    pixel: Pixel,
) -> bool {
    exists|states: Seq<Sampler>, samples: Seq<Vector3>, sums: Seq<Vector3>, developed: Vector3|
        #![trigger adds_up(darkroom, samples, sums), states.len(), Pixel::from_color(developed)]
        {
            &&& samples.len() == config.samples_per_pixel()
            &&& states.len() == samples.len() + 1
            &&& states[0] == before
            &&& states.last() == after
            &&& forall|k: int|
                0 <= k < samples.len() ==> is_sample(
                    #[trigger] states[k],
                    states[k + 1],
                    i,
                    j,
                    config,
                    camera,
                    world,
                    surface,
                    darkroom,
                    samples[k],
                )
            &&& adds_up(darkroom, samples, sums)
            &&& call_ensures(darkroom.develop, (sums.last(), config.samples_per_pixel()), developed)
            &&& pixel == Pixel::from_color(developed)
        }
}

/// Renders pixel `(i, j)`: takes the configured number of samples through the pixel,
/// each from two fresh uniform draws and a fresh point of the lens, adds up their
/// colours, develops the sum and quantises it.
pub fn render_pixel<
    H: Hittable,
    S: Scatterable,
    A: Fn(Optics, Scalar, Scalar, Vector3) -> Ray,
    B: Fn(Ray) -> Vector3,
    M: Fn(Vector3, Vector3) -> Vector3,
    P: Fn(Scalar, u32, u32) -> Scalar,
    C: Fn(Vector3, Vector3) -> Vector3,
    D: Fn(Vector3, u32) -> Vector3,
>(
    i: u32,
    j: u32,
    config: &RenderConfig,
    camera: &Camera<A>,
    world: &Scene<H>,
    surface: &S,
    sampler: &mut Sampler,
    darkroom: &Darkroom<B, M, P, C, D>,
) -> (pixel: Pixel)
    requires
        darkroom.ready(),
    ensures
        is_pixel(
            *old(sampler),
            *final(sampler),
            i,
            j,
            config,
            camera,
            world,
            surface,
            darkroom,
            pixel,
        ),
{
    let count = config.samples_per_pixel();
    let mut sum = black();
    let ghost mut states: Seq<Sampler> = seq![*sampler];
    let ghost mut samples: Seq<Vector3> = Seq::empty();
    let ghost mut sums: Seq<Vector3> = seq![sum];
    let mut n: u32 = 0;
    while n < count
        invariant
            n <= count,
            count == config.samples_per_pixel(),
            darkroom.ready(),
            samples.len() == n,
            states.len() == n + 1,
            states[0] == *old(sampler),
            states.last() == *sampler,
            sums.last() == sum,
            adds_up(darkroom, samples, sums),
            forall|k: int|
                0 <= k < samples.len() ==> is_sample(
                    #[trigger] states[k],
                    states[k + 1],
                    i,
                    j,
                    config,
                    camera,
                    world,
                    surface,
                    darkroom,
                    samples[k],
                ),
        decreases count - n,
    {
        let ghost before = *sampler;
        let u1 = sampler.uniform();
        let u2 = sampler.uniform();
        let s = (darkroom.place)(u1, i, config.width());
        let t = (darkroom.place)(u2, j, config.height());
        let ghost drawn = *sampler;
        let ray = camera.get_ray(s, t, sampler);
        let ghost aimed = *sampler;
        let colour = color(
            ray,
            world,
            surface,
            0,
            sampler,
            &darkroom.background,
            &darkroom.attenuate,
        );
        let total = (darkroom.add)(sum, colour);
        proof {
            let lens = choose|lens: Vector3|
                draws_from_disk(drawn, aimed, lens) && #[trigger] call_ensures(
                    camera.aim(),
                    (camera.optics(), s, t, lens),
                    ray,
                );
            let path = choose|path: LightPath| #[trigger]
                path.follows(world.objects@, surface, ray, 0, aimed, *sampler) && path.shines(
                    darkroom.background,
                    darkroom.attenuate,
                    colour,
                );
            assert(drawn.follows(&before, 2));
            assert(is_sample(
                before,
                *sampler,
                i,
                j,
                config,
                camera,
                world,
                surface,
                darkroom,
                colour,
            ));
            let earlier_states = states;
            let earlier = samples;
            let above = sums;
            states = states.push(*sampler);
            samples = samples.push(colour);
            sums = sums.push(total);
            assert forall|k: int| 0 <= k < samples.len() implies call_ensures(
                darkroom.add,
                (sums[k], samples[k]),
                #[trigger] sums[k + 1],
            ) by {
                if k < earlier.len() {
                    assert(sums[k + 1] == above[k + 1]);
                }
            }
            assert forall|k: int| 0 <= k < samples.len() implies is_sample(
                #[trigger] states[k],
                states[k + 1],
                i,
                j,
                config,
                camera,
                world,
                surface,
                darkroom,
                samples[k],
            ) by {
                if k < earlier.len() {
                    assert(states[k] == earlier_states[k]);
                    assert(states[k + 1] == earlier_states[k + 1]);
                    assert(samples[k] == earlier[k]);
                }
            }
        }
        sum = total;
        n = n + 1;
    }
    let developed = (darkroom.develop)(sum, count);
    let pixel = Pixel::from_color(developed);
    proof {
        assert(adds_up(darkroom, samples, sums) && states.len() == samples.len() + 1 && pixel
            == Pixel::from_color(developed));
    }
    pixel
}

/// In a scene without objects every sample is exactly the background along its ray.
pub proof fn lemma_empty_scene_samples_the_background<
    H: Hittable,
    S: Scatterable,
    A: Fn(Optics, Scalar, Scalar, Vector3) -> Ray,
    B: Fn(Ray) -> Vector3,
    M: Fn(Vector3, Vector3) -> Vector3,
    P: Fn(Scalar, u32, u32) -> Scalar,
    C: Fn(Vector3, Vector3) -> Vector3,
    D: Fn(Vector3, u32) -> Vector3,
>(
    before: Sampler,
    after: Sampler,
    i: u32,
    j: u32,
    config: &RenderConfig,
    camera: &Camera<A>,
    world: &Scene<H>,
    surface: &S,
    darkroom: &Darkroom<B, M, P, C, D>,
    colour: Vector3,
)
    requires
        world.objects@.len() == 0,
        is_sample(before, after, i, j, config, camera, world, surface, darkroom, colour),
    ensures
        exists|s: Scalar, t: Scalar, lens: Vector3, ray: Ray|
            #![trigger call_ensures(camera.aim(), (camera.optics(), s, t, lens), ray)]
            call_ensures(camera.aim(), (camera.optics(), s, t, lens), ray) && call_ensures(
                darkroom.background,
                (ray,),
                colour,
            ),
{
    let (u1, u2, s, t, drawn, lens, aimed, ray, path) = choose|
        u1: Scalar,
        u2: Scalar,
        s: Scalar,
        t: Scalar,
        drawn: Sampler,
        lens: Vector3,
        aimed: Sampler,
        ray: Ray,
        path: LightPath,
    |
        #![trigger
            call_ensures(darkroom.place, (u1, i, config.width()), s),
            call_ensures(darkroom.place, (u2, j, config.height()), t),
            draws_from_disk(drawn, aimed, lens),
            path.follows(world.objects@, surface, ray, 0, aimed, after),
        ]
        {
            &&& u1.encodes(top_bits(before.word(0)), 24)
            &&& u2.encodes(top_bits(before.word(1)), 24)
            &&& drawn.follows(&before, 2)
            &&& call_ensures(darkroom.place, (u1, i, config.width()), s)
            &&& call_ensures(darkroom.place, (u2, j, config.height()), t)
            &&& draws_from_disk(drawn, aimed, lens)
            &&& call_ensures(camera.aim(), (camera.optics(), s, t, lens), ray)
            &&& path.follows(world.objects@, surface, ray, 0, aimed, after)
            &&& path.shines(darkroom.background, darkroom.attenuate, colour)
        };
    lemma_empty_scene_shows_the_background(
        path,
        world.objects@,
        surface,
        ray,
        0,
        aimed,
        after,
        darkroom.background,
        darkroom.attenuate,
        colour,
    );
}

/// Whether `image` is the image as it is rendered with the sampler `before`, and
/// `after` the sampler when it is rendered: the pixels are rendered one after the other
/// in output order, each as `is_pixel` says.
pub open spec fn is_render<
    H: Hittable,
    S: Scatterable,
    A: Fn(Optics, Scalar, Scalar, Vector3) -> Ray,
    B: Fn(Ray) -> Vector3,
    M: Fn(Vector3, Vector3) -> Vector3,
    P: Fn(Scalar, u32, u32) -> Scalar,
    C: Fn(Vector3, Vector3) -> Vector3,
    D: Fn(Vector3, u32) -> Vector3,
>(
    before: Sampler,
    after: Sampler,
    config: &RenderConfig,
    camera: &Camera<A>,
    world: &Scene<H>,
    surface: &S,
    darkroom: &Darkroom<B, M, P, C, D>,
    image: Image,
) -> bool {
    exists|states: Seq<Sampler>|
        {
            &&& #[trigger] states.len() == image@.len() + 1
            &&& states[0] == before
            &&& states.last() == after
            &&& forall|i: u32, j: u32|
                #![trigger image.cell(i, j)]
                image.contains(i, j) ==> 0 <= image.cell(i, j) < image@.len() && is_pixel(
                    states[image.cell(i, j)],
                    states[image.cell(i, j) + 1],
                    i,
                    j,
                    config,
                    camera,
                    world,
                    surface,
                    darkroom,
                    image@[image.cell(i, j)],
                )
        }
}

/// Renders the image: every pixel in output order, from the top row down and in each
/// row from left to right, each as `render_pixel` renders it.
pub fn render<
    H: Hittable,
    S: Scatterable,
    A: Fn(Optics, Scalar, Scalar, Vector3) -> Ray,
    B: Fn(Ray) -> Vector3,
    M: Fn(Vector3, Vector3) -> Vector3,
    P: Fn(Scalar, u32, u32) -> Scalar,
    C: Fn(Vector3, Vector3) -> Vector3,
    D: Fn(Vector3, u32) -> Vector3,
>(
    config: &RenderConfig,
    camera: &Camera<A>,
    world: &Scene<H>,
    surface: &S,
    sampler: &mut Sampler,
    darkroom: &Darkroom<B, M, P, C, D>,
) -> (image: Image)
    requires
        darkroom.ready(),
    ensures
        image.width() == config.width(),
        image.height() == config.height(),
        image@.len() == config.width() * config.height(),
        is_render(
            *old(sampler),
            *final(sampler),
            config,
            camera,
            world,
            surface,
            darkroom,
            image,
        ),
{
    let mut image = Image::new(config);
    let count = image.len();
    let ghost mut states: Seq<Sampler> = seq![*sampler];
    let mut k: usize = 0;
    while k < count
        invariant
            k <= count,
            count == image@.len(),
            darkroom.ready(),
            image.width() == config.width(),
            image.height() == config.height(),
            image@.len() == config.width() * config.height(),
            states.len() == k + 1,
            states[0] == *old(sampler),
            states.last() == *sampler,
            forall|i: u32, j: u32|
                #![trigger image.cell(i, j)]
                image.contains(i, j) && image.cell(i, j) < k ==> is_pixel(
                    states[image.cell(i, j)],
                    states[image.cell(i, j) + 1],
                    i,
                    j,
                    config,
                    camera,
                    world,
                    surface,
                    darkroom,
                    image@[image.cell(i, j)],
                ),
        decreases count - k,
    {
        let (i, j) = image.place(k);
        let pixel = render_pixel(i, j, config, camera, world, surface, sampler, darkroom);
        let ghost before = image;
        let ghost earlier = states;
        image.set(i, j, pixel);
        proof {
            states = states.push(*sampler);
            assert forall|i2: u32, j2: u32|
                #![trigger image.cell(i2, j2)]
                image.contains(i2, j2) && image.cell(i2, j2) < k + 1 implies is_pixel(
                states[image.cell(i2, j2)],
                states[image.cell(i2, j2) + 1],
                i2,
                j2,
                config,
                camera,
                world,
                surface,
                darkroom,
                image@[image.cell(i2, j2)],
            ) by {
                let place = before.cell(i2, j2);
                assert(image.cell(i2, j2) == place);
                lemma_cell_lies_inside(before, i2, j2);
                if place == k {
                    lemma_pixels_do_not_overlap(before, i, j, i2, j2);
                } else {
                    assert(states[place] == earlier[place]);
                    assert(states[place + 1] == earlier[place + 1]);
                }
            }
        }
        k += 1;
    }
    proof {
        assert forall|i: u32, j: u32| #![trigger image.cell(i, j)] image.contains(i, j) implies 0
            <= image.cell(i, j) < image@.len() by {
            lemma_cell_lies_inside(image, i, j);
        }
        assert(states.len() == image@.len() + 1);
    }
    image
}

} // verus!
