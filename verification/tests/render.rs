use cgmath::Vector3 as V3;
use raytracing::camera::{Optics, Stance, Survey};
use raytracing::config::{ConfigError, RenderConfig};
use raytracing::image::{Image, Pixel, CHANNEL_SCALE_BITS};
use raytracing::integrator::{color, nadir, trace, zenith};
use raytracing::render::{render, Darkroom};
use raytracing::materials::{Interface, MaterialType, Mirror, Scatterable, Side, Surfaces};
use raytracing::ppm::to_ppm;
use raytracing::ray::Ray;
use raytracing::sampling::{random_in_unit_disk, Sampler};
use raytracing::scalar::Scalar;
use raytracing::scene::{HittableRecord, Scene};
use raytracing::sphere::{Crossing, Crossings, Sphere};
use raytracing::vector::Vector3;

fn s(x: f32) -> Scalar {
    Scalar::from_bits(x.to_bits())
}

fn f(x: Scalar) -> f32 {
    f32::from_bits(x.to_bits())
}

fn bits(a: V3<f32>) -> Vector3 {
    Vector3::new(s(a.x), s(a.y), s(a.z))
}

fn vector(a: Vector3) -> V3<f32> {
    V3::new(f(a.x), f(a.y), f(a.z))
}

fn origin(mut r: Ray) -> V3<f32> {
    vector(r.origin())
}

fn direction(mut r: Ray) -> V3<f32> {
    vector(r.direction())
}

fn length(a: V3<f32>) -> f32 {
    cgmath::dot(a, a).sqrt()
}

fn unit(a: V3<f32>) -> V3<f32> {
    a / length(a)
}

fn reflect(a: V3<f32>, n: V3<f32>) -> V3<f32> {
    a - 2.0 * cgmath::dot(a, n) * n
}

type Kernel = fn(Vector3, Scalar, Ray) -> Crossings;
type Ball = Sphere<Kernel>;

fn crossing(center: V3<f32>, radius: f32, r: Ray, t: f32) -> Crossing {
    let point = origin(r) + t * direction(r);
    Crossing { t: s(t), p: bits(point), normal: bits((point - center) / radius) }
}

fn crossings(center: Vector3, radius: Scalar, r: Ray) -> Crossings {
    let (center, radius) = (vector(center), f(radius));
    let oc = origin(r) - center;
    let a = cgmath::dot(direction(r), direction(r));
    let b = cgmath::dot(oc, direction(r));
    let c = cgmath::dot(oc, oc) - radius * radius;
    let discriminant = b * b - a * c;
    Crossings {
        discriminant: s(discriminant),
        near: crossing(center, radius, r, (-b - discriminant.sqrt()) / a),
        far: crossing(center, radius, r, (-b + discriminant.sqrt()) / a),
    }
}

fn ball(center: V3<f32>, radius: f32, material: MaterialType) -> Ball {
    Sphere::new(bits(center), s(radius), material, crossings)
}

fn diffuse(rec: HittableRecord, point: Vector3) -> Vector3 {
    let p = vector(rec.p);
    let target = p + vector(rec.normal) + vector(point);
    bits(target - p)
}

fn mirror(r_in: Ray, rec: HittableRecord, fuzz: Scalar, point: Vector3) -> Mirror {
    let normal = vector(rec.normal);
    let fuzzed = reflect(unit(direction(r_in)), normal) + f(fuzz) * vector(point);
    Mirror { direction: bits(fuzzed), facing: s(cgmath::dot(fuzzed, normal)) }
}

fn facing(r_in: Ray, rec: HittableRecord) -> Scalar {
    s(cgmath::dot(direction(r_in), vector(rec.normal)))
}

fn interface(r_in: Ray, rec: HittableRecord, ref_indx: Scalar, side: Side) -> Interface {
    let normal = vector(rec.normal);
    let incoming = direction(r_in);
    let index = f(ref_indx);
    let along = cgmath::dot(incoming, normal);
    let (outward, ratio, cosine) = match side {
        Side::Exiting => (-normal, index, index * along / length(incoming)),
        Side::Entering => (normal, 1.0 / index, -along / length(incoming)),
    };
    let uv = unit(incoming);
    let dt = cgmath::dot(uv, outward);
    let discriminant = 1.0 - ratio * ratio * (1.0 - dt * dt);
    let r0 = ((1.0 - index) / (1.0 + index)) * ((1.0 - index) / (1.0 + index));
    let q = 1.0 - cosine;
    Interface {
        reflected: bits(reflect(incoming, normal)),
        discriminant: s(discriminant),
        refracted: bits(ratio * (uv - outward * dt) - outward * discriminant.sqrt()),
        reflectance: s(r0 + (1.0 - r0) * q * q * q * q * q),
    }
}

type Kernels = Surfaces<
    fn(HittableRecord, Vector3) -> Vector3,
    fn(Ray, HittableRecord, Scalar, Vector3) -> Mirror,
    fn(Ray, HittableRecord) -> Scalar,
    fn(Ray, HittableRecord, Scalar, Side) -> Interface,
>;

fn surfaces() -> Kernels {
    Surfaces::new(diffuse, mirror, facing, interface)
}

type Aim = fn(Optics, Scalar, Scalar, Vector3) -> Ray;

fn survey(stance: Stance) -> Survey {
    let look_from = vector(stance.look_from);
    let focus = f(stance.focus_dist);
    let half_height = (f(stance.vfov).to_radians() / 2.0).tan();
    let half_width = f(stance.aspect) * half_height;
    let backward = look_from - vector(stance.look_at);
    let w = backward / length(backward);
    let right = vector(stance.v_up).cross(w);
    let u = right / length(right);
    let v = w.cross(u);
    Survey {
        optics: Optics {
            origin: bits(look_from),
            lower_left_corner: bits(
                look_from - half_width * focus * u - half_height * focus * v - focus * w,
            ),
            horizontal: bits(2.0 * half_width * focus * u),
            vertical: bits(2.0 * half_height * focus * v),
            lens_radius: s(f(stance.aperture) / 2.0),
            u: bits(u),
            v: bits(v),
            w: bits(w),
        },
        backward_length: s(length(backward)),
        right_length: s(length(right)),
    }
}

fn aim(optics: Optics, u: Scalar, v: Scalar, lens: Vector3) -> Ray {
    let rd = f(optics.lens_radius) * vector(lens);
    let offset = vector(optics.u) * rd.x + vector(optics.v) * rd.y;
    Ray::new(
        bits(vector(optics.origin) + offset),
        bits(
            vector(optics.lower_left_corner)
                + f(u) * vector(optics.horizontal)
                + f(v) * vector(optics.vertical)
                - vector(optics.origin)
                - offset,
        ),
    )
}

/// A pinhole camera at the origin that looks down the negative z axis at a plane two
/// units high and four wide, one unit away.
fn pinhole() -> raytracing::camera::Camera<Aim> {
    let fixed = |_stance: Stance| Survey {
        optics: Optics {
            origin: bits(V3::new(0.0, 0.0, 0.0)),
            lower_left_corner: bits(V3::new(-2.0, -1.0, -1.0)),
            horizontal: bits(V3::new(4.0, 0.0, 0.0)),
            vertical: bits(V3::new(0.0, 2.0, 0.0)),
            lens_radius: s(0.0),
            u: bits(V3::new(1.0, 0.0, 0.0)),
            v: bits(V3::new(0.0, 1.0, 0.0)),
            w: bits(V3::new(0.0, 0.0, 1.0)),
        },
        backward_length: s(1.0),
        right_length: s(1.0),
    };
    raytracing::camera::Camera::new(
        bits(V3::new(0.0, 0.0, 0.0)),
        bits(V3::new(0.0, 0.0, -1.0)),
        bits(V3::new(0.0, 1.0, 0.0)),
        s(90.0),
        s(2.0),
        s(0.0),
        s(1.0),
        fixed,
        aim as Aim,
    )
    .unwrap()
}

fn background(r: Ray) -> Vector3 {
    let t = 0.5 * (unit(direction(r)).y + 1.0);
    bits((1.0 - t) * vector(nadir()) + t * vector(zenith()))
}

fn attenuate(attenuation: Vector3, light: Vector3) -> Vector3 {
    let (a, light) = (vector(attenuation), vector(light));
    bits(V3::new(a.x * light.x, a.y * light.y, a.z * light.z))
}

fn jittered(u: Scalar, index: u32, extent: u32) -> Scalar {
    s((f(u) + index as f32) / extent as f32)
}

fn centred(_u: Scalar, index: u32, extent: u32) -> Scalar {
    s((0.5 + index as f32) / extent as f32)
}

fn add(sum: Vector3, colour: Vector3) -> Vector3 {
    bits(vector(sum) + vector(colour))
}

fn develop(sum: Vector3, samples: u32) -> Vector3 {
    let average = vector(sum) / samples as f32;
    let scale = f32::from_bits(CHANNEL_SCALE_BITS);
    bits(V3::new(scale * average.x.sqrt(), scale * average.y.sqrt(), scale * average.z.sqrt()))
}

type Place = fn(Scalar, u32, u32) -> Scalar;

/// Renders the scene with the pinhole camera, the sample points placed by `place`.
fn shoot(config: &RenderConfig, scene: &Scene<Ball>, seed: u64, place: Place) -> Image {
    let darkroom = Darkroom { background, attenuate, place, add, develop };
    let mut sampler = Sampler::seeded(seed);
    render(config, &pinhole(), scene, &surfaces(), &mut sampler, &darkroom)
}

/// The sum of the samples of the one pixel of a one-pixel image, divided by their number.
fn estimate(scene: &Scene<Ball>, samples: u32, seed: u64) -> V3<f32> {
    let config = RenderConfig::new(1, 1, 1).unwrap();
    let camera = pinhole();
    let surfaces = surfaces();
    let mut sampler = Sampler::seeded(seed);
    let mut sum = V3::new(0.0f32, 0.0, 0.0);
    for _ in 0..samples {
        let u = jittered(sampler.uniform(), 0, config.width());
        let v = jittered(sampler.uniform(), 0, config.height());
        let ray = camera.get_ray(u, v, &mut sampler);
        let light = color(ray, scene, &surfaces, 0, &mut sampler, &background, &attenuate);
        sum = sum + vector(light);
    }
    sum / samples as f32
}

fn lambertian_ball() -> Ball {
    ball(
        V3::new(0.0, 0.0, -1.0),
        0.5,
        MaterialType::Lambertian { albedo: bits(V3::new(0.5, 0.5, 0.5)) },
    )
}

fn gradient_pixel(direction: V3<f64>) -> Pixel {
    let y = direction.y / (direction.x * direction.x + direction.y * direction.y + direction.z * direction.z).sqrt();
    let t = 0.5 * (y + 1.0);
    let channel = |white: f64, blue: f64| (255.999 * ((1.0 - t) * white + t * blue).sqrt()) as u8;
    Pixel { r: channel(1.0, 0.5), g: channel(1.0, 0.7), b: channel(1.0, 1.0) }
}

#[test]
fn an_empty_two_by_one_image_shows_the_gradient() {
    let config = RenderConfig::new(2, 1, 1).unwrap();
    let scene: Scene<Ball> = Scene::new(Vec::new());
    let image = shoot(&config, &scene, 2, centred);
    // The two rays run along (-1, 0, -1) and (1, 0, -1): level, so half white and half blue.
    assert_eq!(image.get(0, 0), Some(gradient_pixel(V3::new(-1.0, 0.0, -1.0))));
    assert_eq!(image.get(1, 0), Some(gradient_pixel(V3::new(1.0, 0.0, -1.0))));
    assert_eq!(image.get(0, 0), Some(Pixel { r: 221, g: 236, b: 255 }));
    assert_eq!(image.get(1, 0), Some(Pixel { r: 221, g: 236, b: 255 }));
    assert_eq!(
        String::from_utf8(to_ppm(&image)).unwrap(),
        "P3\n2 1\n255\n221 236 255\n221 236 255\n"
    );
}

#[test]
fn an_empty_scene_shows_the_gradient_in_every_pixel() {
    let config = RenderConfig::new(8, 4, 3).unwrap();
    let scene: Scene<Ball> = Scene::new(Vec::new());
    let image = shoot(&config, &scene, 2, centred);
    for j in 0..4 {
        for i in 0..8 {
            let u = (0.5 + i as f64) / 8.0;
            let v = (0.5 + j as f64) / 4.0;
            let expected = gradient_pixel(V3::new(-2.0 + 4.0 * u, -1.0 + 2.0 * v, -1.0));
            assert_eq!(image.get(i, j), Some(expected), "pixel ({i}, {j})");
        }
    }
    // Blue above, white below.
    let (top, bottom) = (image.get(0, 3).unwrap(), image.get(0, 0).unwrap());
    assert!(top.r < bottom.r);
    assert_eq!(image.nth(0), Some(top));
}

#[test]
fn an_empty_scene_shows_the_gradient_where_the_samples_fall() {
    let config = RenderConfig::new(5, 3, 1).unwrap();
    let scene: Scene<Ball> = Scene::new(Vec::new());
    let image = shoot(&config, &scene, 77, jittered);
    // The draws of the render, made again: two for the place of the sample and a point
    // of the lens for each pixel, in output order.
    let mut replay = Sampler::seeded(77);
    for k in 0..15 {
        let (i, j) = image.coordinates(k).unwrap();
        let u = f(jittered(replay.uniform(), i, 5));
        let v = f(jittered(replay.uniform(), j, 3));
        random_in_unit_disk(&mut replay);
        assert!((i as f32 / 5.0..(i + 1) as f32 / 5.0).contains(&u));
        assert!((j as f32 / 3.0..(j + 1) as f32 / 3.0).contains(&v));
        let along = V3::new(-2.0f32, -1.0, -1.0) + u * V3::new(4.0f32, 0.0, 0.0)
            + v * V3::new(0.0f32, 2.0, 0.0);
        let blend = 0.5 * (unit(along).y + 1.0);
        let sky = (1.0 - blend) * V3::new(1.0f32, 1.0, 1.0) + blend * V3::new(0.5f32, 0.7, 1.0);
        let scale = f32::from_bits(CHANNEL_SCALE_BITS);
        let expected = Pixel {
            r: (scale * sky.x.sqrt()) as u8,
            g: (scale * sky.y.sqrt()) as u8,
            b: (scale * sky.z.sqrt()) as u8,
        };
        assert_eq!(image.nth(k), Some(expected), "pixel ({i}, {j})");
    }
}

#[test]
fn one_lambertian_sphere_with_a_seeded_source() {
    let config = RenderConfig::new(2, 1, 1).unwrap();
    let scene = Scene::new(vec![lambertian_ball()]);
    let image = shoot(&config, &scene, 14, jittered);
    let grid: Vec<Pixel> = (0..2).map(|k| image.nth(k).unwrap()).collect();
    // Both samples meet the sphere and reach the sky after one bounce.
    assert_eq!(grid, vec![Pixel { r: 144, g: 160, b: 181 }, Pixel { r: 167, g: 172, b: 181 }]);
    assert_eq!(
        String::from_utf8(to_ppm(&image)).unwrap(),
        "P3\n2 1\n255\n144 160 181\n167 172 181\n"
    );
    // The same seeds give the same picture again.
    let again = shoot(&config, &scene, 14, jittered);
    assert_eq!((0..2).map(|k| again.nth(k).unwrap()).collect::<Vec<Pixel>>(), grid);
}

#[test]
fn the_sphere_is_seen_in_the_middle_of_the_picture() {
    let config = RenderConfig::new(3, 1, 1).unwrap();
    let scene = Scene::new(vec![lambertian_ball()]);
    let mut sampler = Sampler::seeded(4);
    let ray = pinhole().get_ray(s(0.5), s(0.5), &mut sampler);
    let path = trace(ray, &scene, &surfaces(), 0, &mut sampler);
    assert!(!path.bounces.is_empty());
    assert_eq!(f(path.bounces[0].hit.t), 0.5);
    assert_eq!(path.bounces[0].hit.p, bits(V3::new(0.0, 0.0, -0.5)));
    assert_eq!(path.bounces[0].attenuation, bits(V3::new(0.5, 0.5, 0.5)));
    let image = shoot(&config, &scene, 5, centred);
    // The sphere fills the middle pixel and dims it; the outer two show the sky.
    let sky = gradient_pixel(V3::new(-2.0 + 4.0 / 6.0, 0.0, -1.0));
    assert_eq!(image.get(0, 0), Some(sky));
    assert_eq!(image.get(2, 0), Some(sky));
    assert!(image.get(1, 0).unwrap().r < sky.r);
}

#[test]
fn a_thousand_samples_of_a_lambertian_sphere_converge() {
    let scene = Scene::new(vec![lambertian_ball()]);
    let difference = |a: V3<f32>, b: V3<f32>| {
        ((a.x - b.x).abs() + (a.y - b.y).abs() + (a.z - b.z).abs()) / 3.0
    };
    let reference = estimate(&scene, 4000, 100);
    let coarse = difference(estimate(&scene, 10, 200), reference);
    let fine = difference(estimate(&scene, 1000, 300), reference);
    assert!(fine < 0.02, "difference at 1000 samples: {fine}");
    assert!(fine <= coarse + 0.02, "1000 samples: {fine}, 10 samples: {coarse}");
    // A second estimate from another seed agrees with the first.
    assert!(difference(estimate(&scene, 1000, 400), estimate(&scene, 1000, 500)) < 0.03);
}

#[test]
fn more_samples_per_pixel_come_from_more_draws() {
    let scene = Scene::new(vec![lambertian_ball()]);
    let one = shoot(&RenderConfig::new(4, 2, 1).unwrap(), &scene, 9, jittered);
    let many = shoot(&RenderConfig::new(4, 2, 64).unwrap(), &scene, 9, jittered);
    assert_eq!(one.len(), 8);
    assert_eq!(many.len(), 8);
    let differing = (0..8).filter(|&k| one.nth(k) != many.nth(k)).count();
    assert!(differing >= 4);
}

#[test]
fn a_glass_sphere_and_a_metal_sphere_render_without_leaving_the_byte_range() {
    let config = RenderConfig::new(6, 3, 4).unwrap();
    let scene = Scene::new(vec![
        ball(
            V3::new(0.0, -100.5, -1.0),
            100.0,
            MaterialType::Lambertian { albedo: bits(V3::new(0.8, 0.8, 0.0)) },
        ),
        ball(
            V3::new(1.0, 0.0, -1.0),
            0.5,
            MaterialType::Metal { albedo: bits(V3::new(0.8, 0.6, 0.2)), fuzz: s(0.3) },
        ),
        ball(V3::new(-1.0, 0.0, -1.0), 0.5, MaterialType::Dielectric { ref_indx: s(1.5) }),
    ]);
    let image = shoot(&config, &scene, 6, jittered);
    let text = String::from_utf8(to_ppm(&image)).unwrap();
    assert_eq!(text.lines().count(), 3 + 18);
    for line in text.lines().skip(3) {
        let channels: Vec<u32> = line.split(' ').map(|n| n.parse().unwrap()).collect();
        assert_eq!(channels.len(), 3);
        assert!(channels.iter().all(|&c| c <= 255));
    }
}

fn set_up(look_from: V3<f32>, look_at: V3<f32>, v_up: V3<f32>) -> Result<Optics, ConfigError> {
    raytracing::camera::Camera::new(
        bits(look_from),
        bits(look_at),
        bits(v_up),
        s(90.0),
        s(2.0),
        s(0.5),
        s(3.0),
        survey,
        aim as Aim,
    )
    .map(|camera| camera.optics())
}

#[test]
fn a_camera_without_a_direction_is_turned_down_before_rendering() {
    let up = V3::new(0.0f32, 1.0, 0.0);
    let here = V3::new(1.0f32, 2.0, 3.0);
    assert_eq!(set_up(here, here, up), Err(ConfigError::DegenerateCamera));
    let below = V3::new(1.0f32, -3.0, 3.0);
    assert_eq!(set_up(here, below, up), Err(ConfigError::DegenerateCamera));
    let nowhere = V3::new(f32::NAN, 0.0, 0.0);
    assert_eq!(set_up(here, nowhere, up), Err(ConfigError::DegenerateCamera));
    assert!(set_up(here, V3::new(0.0, 0.0, 0.0), up).is_ok());
}

#[test]
fn a_camera_keeps_the_optics_of_its_stance() {
    let optics = set_up(V3::new(0.0, 0.0, 0.0), V3::new(0.0, 0.0, -1.0), V3::new(0.0, 1.0, 0.0))
        .unwrap();
    assert_eq!(optics.origin, bits(V3::new(0.0, 0.0, 0.0)));
    assert_eq!(optics.u, bits(V3::new(1.0, 0.0, 0.0)));
    assert_eq!(optics.v, bits(V3::new(0.0, 1.0, 0.0)));
    assert_eq!(optics.w, bits(V3::new(0.0, 0.0, 1.0)));
    assert_eq!(f(optics.lens_radius), 0.25);
    // The plane in focus is three units away, and at 90 degrees as high as twice that.
    let corner = vector(optics.lower_left_corner);
    assert!((corner - V3::new(-6.0, -3.0, -3.0)).x.abs() < 1.0e-5);
    assert!((corner - V3::new(-6.0, -3.0, -3.0)).y.abs() < 1.0e-5);
    assert_eq!(corner.z, -3.0);
}

#[test]
fn rays_through_one_image_point_start_on_the_lens_and_meet_in_the_plane_in_focus() {
    let camera = raytracing::camera::Camera::new(
        bits(V3::new(0.0, 0.0, 0.0)),
        bits(V3::new(0.0, 0.0, -1.0)),
        bits(V3::new(0.0, 1.0, 0.0)),
        s(90.0),
        s(2.0),
        s(0.5),
        s(3.0),
        survey,
        aim as Aim,
    )
    .unwrap();
    let mut sampler = Sampler::seeded(9);
    let mut origins = Vec::new();
    for _ in 0..200 {
        let ray = camera.get_ray(s(0.25), s(0.75), &mut sampler);
        let (from, along) = (origin(ray), direction(ray));
        assert_eq!(from.z, 0.0);
        assert!(from.x * from.x + from.y * from.y < 0.25 * 0.25);
        let target = from + along;
        assert!((target - V3::new(-3.0, 1.5, -3.0)).x.abs() < 1.0e-5);
        assert!((target - V3::new(-3.0, 1.5, -3.0)).y.abs() < 1.0e-5);
        assert!((target - V3::new(-3.0, 1.5, -3.0)).z.abs() < 1.0e-5);
        origins.push((from.x.to_bits(), from.y.to_bits()));
    }
    origins.sort();
    origins.dedup();
    assert!(origins.len() > 190);
}

#[test]
fn the_camera_basis_is_orthonormal() {
    let stances = [
        (V3::new(13.0f32, 2.0, 3.0), V3::new(0.0f32, 0.0, 0.0), V3::new(0.0f32, 1.0, 0.0)),
        (V3::new(-2.0, 2.0, 1.0), V3::new(0.0, 0.0, -1.0), V3::new(0.0, 1.0, 0.0)),
        (V3::new(0.0, 0.0, 0.0), V3::new(0.0, 0.0, -1.0), V3::new(0.3, 1.0, 0.2)),
        (V3::new(5.0, -7.0, 0.5), V3::new(4.0, 9.0, 100.0), V3::new(1.0, 0.0, 0.0)),
    ];
    for (look_from, look_at, v_up) in stances {
        let optics = set_up(look_from, look_at, v_up).unwrap();
        let (u, v, w) = (vector(optics.u), vector(optics.v), vector(optics.w));
        for axis in [u, v, w] {
            assert!((length(axis) - 1.0).abs() < 1.0e-6, "length {}", length(axis));
        }
        for (a, b) in [(u, v), (v, w), (w, u)] {
            assert!(cgmath::dot(a, b).abs() < 1.0e-6, "dot {}", cgmath::dot(a, b));
        }
        // Backward is away from what the camera looks at.
        assert!(cgmath::dot(w, look_from - look_at) > 0.0);
    }
}

#[test]
fn a_perfect_mirror_reflects_at_the_angle_of_incidence() {
    let glossy = MaterialType::Metal { albedo: bits(V3::new(0.8, 0.8, 0.8)), fuzz: s(0.0) };
    let cases = [
        (V3::new(1.0f32, -1.0, 0.0), V3::new(0.0f32, 1.0, 0.0)),
        (V3::new(0.2, -3.0, 0.5), V3::new(0.0, 1.0, 0.0)),
        (V3::new(0.0, 0.0, -2.0), unit(V3::new(0.3, 0.4, 1.0))),
        (V3::new(-1.0, -0.1, -1.0), unit(V3::new(1.0, 1.0, 1.0))),
    ];
    for (incoming, normal) in cases {
        let rec = HittableRecord {
            t: s(1.0),
            p: bits(V3::new(0.0, 0.0, 0.0)),
            normal: bits(normal),
            mat_ptr: glossy,
        };
        let ray = Ray::new(bits(-incoming), bits(incoming));
        let out = surfaces().scatter(ray, rec, &mut Sampler::seeded(2)).unwrap();
        let reflected = direction(out.scattered);
        let before = cgmath::dot(unit(incoming), normal);
        let after = cgmath::dot(reflected, normal);
        assert!((after + before).abs() < 1.0e-6, "{after} against {before}");
        assert!((length(reflected) - 1.0).abs() < 1.0e-6);
    }
}

#[test]
fn reflectance_grows_towards_grazing_angles() {
    let normal = V3::new(0.0f32, 1.0, 0.0);
    let rec = HittableRecord {
        t: s(1.0),
        p: bits(V3::new(0.0, 0.0, 0.0)),
        normal: bits(normal),
        mat_ptr: MaterialType::Dielectric { ref_indx: s(1.5) },
    };
    let mut last = 0.0f32;
    for step in 0..=90 {
        // From straight down onto the surface to along the surface.
        let angle = (step as f32).to_radians();
        let incoming = V3::new(angle.sin(), -angle.cos(), 0.0);
        let ray = Ray::new(bits(-incoming), bits(incoming));
        let reflectance = f(interface(ray, rec, s(1.5), Side::Entering).reflectance);
        assert!(reflectance >= last, "{reflectance} after {last} at {step} degrees");
        assert!((0.0..=1.0001).contains(&reflectance));
        last = reflectance;
    }
    assert!((f(interface(
        Ray::new(bits(V3::new(0.0, 1.0, 0.0)), bits(V3::new(0.0, -1.0, 0.0))),
        rec,
        s(1.5),
        Side::Entering
    )
    .reflectance)
        - 0.04)
        .abs()
        < 1.0e-6);
    assert!(last > 0.99);
}

#[test]
fn refraction_is_total_reflection_beyond_the_critical_angle() {
    let normal = V3::new(0.0f32, 1.0, 0.0);
    let rec = HittableRecord {
        t: s(1.0),
        p: bits(V3::new(0.0, 0.0, 0.0)),
        normal: bits(normal),
        mat_ptr: MaterialType::Dielectric { ref_indx: s(1.5) },
    };
    // A ray that leaves glass: beyond about 41.8 degrees from the normal nothing is refracted.
    for step in 0..90 {
        let angle = (step as f32).to_radians();
        let incoming = V3::new(angle.sin(), angle.cos(), 0.0);
        let ray = Ray::new(bits(-incoming), bits(incoming));
        let candidates = interface(ray, rec, s(1.5), Side::Exiting);
        let possible = f(candidates.discriminant) > 0.0;
        assert_eq!(possible, step <= 41, "at {step} degrees");
        let out = surfaces().scatter(ray, rec, &mut Sampler::seeded(step as u64)).unwrap();
        let taken = direction(out.scattered);
        if possible {
            let bent = vector(candidates.refracted);
            assert!((length(bent) - 1.0).abs() < 1.0e-5);
            assert!(taken == bent || taken == vector(candidates.reflected));
        } else {
            assert_eq!(taken, vector(candidates.reflected));
        }
    }
}
