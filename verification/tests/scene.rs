use std::cell::RefCell;

use cgmath::Vector3 as V3;
use raytracing::materials::MaterialType;
use raytracing::ray::Ray;
use raytracing::scalar::Scalar;
use raytracing::scene::{Hittable, HittableRecord, Scene};
use raytracing::sphere::{ascending, Crossing, Crossings, Sphere};
use raytracing::vector::Vector3;

fn s(x: f32) -> Scalar {
    Scalar::from_bits(x.to_bits())
}

fn f(x: Scalar) -> f32 {
    f32::from_bits(x.to_bits())
}

fn v(a: V3<f32>) -> Vector3 {
    Vector3::new(s(a.x), s(a.y), s(a.z))
}

fn grey(shade: f32) -> MaterialType {
    MaterialType::Lambertian { albedo: v(V3::new(shade, shade, shade)) }
}

fn ray(origin: V3<f32>, direction: V3<f32>) -> Ray {
    Ray::new(v(origin), v(direction))
}

fn forward() -> Ray {
    ray(V3::new(0.0, 0.0, 0.0), V3::new(0.0, 0.0, -1.0))
}

/// A surface that every ray meets at the same parameter. It notes the upper bound of
/// each search made on it.
struct Wall {
    at: f32,
    shade: f32,
    bounds: RefCell<Vec<f32>>,
}

impl Wall {
    fn new(at: f32, shade: f32) -> Wall {
        Wall { at, shade, bounds: RefCell::new(Vec::new()) }
    }
}

impl Hittable for Wall {
    fn intersection(&self, _r: Ray, t_min: Scalar, t_max: Scalar) -> Option<HittableRecord> {
        if s(self.at).lt(t_max) && t_min.lt(s(self.at)) {
            Some(HittableRecord {
                t: s(self.at),
                p: v(V3::new(0.0, 0.0, -self.at)),
                normal: v(V3::new(0.0, 0.0, 1.0)),
                mat_ptr: grey(self.shade),
            })
        } else {
            None
        }
    }

    fn hit(&self, r: Ray, t_min: Scalar, t_max: Scalar) -> Option<HittableRecord> {
        self.bounds.borrow_mut().push(f(t_max));
        self.intersection(r, t_min, t_max)
    }
}

type Kernel = fn(Vector3, Scalar, Ray) -> Crossings;
type Ball = Sphere<Kernel>;

fn crossing(center: V3<f32>, radius: f32, origin: V3<f32>, direction: V3<f32>, t: f32) -> Crossing {
    let point = origin + t * direction;
    Crossing { t: s(t), p: v(point), normal: v((point - center) / radius) }
}

fn crossings(center: Vector3, radius: Scalar, r: Ray) -> Crossings {
    let mut r = r;
    let (center, radius) = (V3::new(f(center.x), f(center.y), f(center.z)), f(radius));
    let origin = V3::new(f(r.origin().x), f(r.origin().y), f(r.origin().z));
    let direction = V3::new(f(r.direction().x), f(r.direction().y), f(r.direction().z));
    let oc = origin - center;
    let a = cgmath::dot(direction, direction);
    let b = cgmath::dot(oc, direction);
    let c = cgmath::dot(oc, oc) - radius * radius;
    let discriminant = b * b - a * c;
    Crossings {
        discriminant: s(discriminant),
        near: crossing(center, radius, origin, direction, (-b - discriminant.sqrt()) / a),
        far: crossing(center, radius, origin, direction, (-b + discriminant.sqrt()) / a),
    }
}

fn ball(center: V3<f32>, radius: f32, material: MaterialType) -> Ball {
    Sphere::new(v(center), s(radius), material, crossings)
}

#[test]
fn an_empty_scene_is_never_hit() {
    let scene: Scene<Wall> = Scene::new(Vec::new());
    assert_eq!(scene.closest_hit(forward(), s(0.001), s(f32::INFINITY)), None);
}

#[test]
fn the_nearest_of_several_walls_is_hit() {
    let scene = Scene::new(vec![Wall::new(5.0, 0.5), Wall::new(2.0, 0.2), Wall::new(9.0, 0.9)]);
    let hit = scene.closest_hit(forward(), s(0.001), s(f32::INFINITY)).unwrap();
    assert_eq!(f(hit.t), 2.0);
    assert_eq!(hit.mat_ptr, grey(0.2));
}

#[test]
fn the_order_of_the_objects_does_not_change_the_hit() {
    let distances = [5.0f32, 2.0, 9.0, 3.5];
    let orders: [[usize; 4]; 5] =
        [[0, 1, 2, 3], [3, 2, 1, 0], [1, 0, 3, 2], [2, 3, 0, 1], [1, 3, 2, 0]];
    for order in orders {
        let walls = order.iter().map(|&k| Wall::new(distances[k], distances[k] / 10.0)).collect();
        let hit = Scene::new(walls).closest_hit(forward(), s(0.001), s(f32::INFINITY)).unwrap();
        assert_eq!(f(hit.t), 2.0, "order {order:?}");
    }
}

#[test]
fn each_object_is_searched_up_to_the_nearest_hit_so_far() {
    let scene = Scene::new(vec![
        Wall::new(5.0, 0.5),
        Wall::new(7.0, 0.7),
        Wall::new(2.0, 0.2),
        Wall::new(3.0, 0.3),
    ]);
    let hit = scene.closest_hit(forward(), s(0.001), s(100.0)).unwrap();
    assert_eq!(f(hit.t), 2.0);
    let bounds: Vec<f32> =
        scene.objects.iter().map(|wall| wall.bounds.borrow()[0]).collect();
    assert_eq!(bounds, vec![100.0, 5.0, 5.0, 2.0]);
    assert!(scene.objects.iter().all(|wall| wall.bounds.borrow().len() == 1));
}

#[test]
fn hits_at_the_ends_of_the_interval_do_not_count() {
    let scene = Scene::new(vec![Wall::new(1.0, 0.1), Wall::new(4.0, 0.4)]);
    assert_eq!(scene.closest_hit(forward(), s(1.0), s(4.0)), None);
    assert_eq!(f(scene.closest_hit(forward(), s(1.0), s(4.5)).unwrap().t), 4.0);
    assert_eq!(f(scene.closest_hit(forward(), s(0.5), s(4.0)).unwrap().t), 1.0);
}

#[test]
fn of_two_walls_at_the_same_distance_the_first_is_hit() {
    let scene = Scene::new(vec![Wall::new(2.0, 0.1), Wall::new(2.0, 0.9)]);
    let hit = scene.closest_hit(forward(), s(0.001), s(f32::INFINITY)).unwrap();
    assert_eq!(hit.mat_ptr, grey(0.1));
}

#[test]
fn the_nearer_of_two_spheres_hides_the_other() {
    let near = || ball(V3::new(0.0, 0.0, -3.0), 1.0, grey(0.3));
    let far = || ball(V3::new(0.0, 0.0, -10.0), 2.0, grey(0.7));
    for scene in [Scene::new(vec![near(), far()]), Scene::new(vec![far(), near()])] {
        let hit = scene.closest_hit(forward(), s(0.001), s(f32::INFINITY)).unwrap();
        assert_eq!(f(hit.t), 2.0);
        assert_eq!(hit.p, v(V3::new(0.0, 0.0, -2.0)));
        assert_eq!(hit.normal, v(V3::new(0.0, 0.0, 1.0)));
        assert_eq!(hit.mat_ptr, grey(0.3));
    }
}

#[test]
fn a_sphere_keeps_what_it_was_made_of() {
    let sphere = ball(V3::new(1.0, 2.0, 3.0), 0.5, grey(0.4));
    assert_eq!(sphere.center(), v(V3::new(1.0, 2.0, 3.0)));
    assert_eq!(f(sphere.radius()), 0.5);
    assert_eq!(sphere.material(), grey(0.4));
}

#[test]
fn a_sphere_is_hit_at_the_near_root_from_outside() {
    let sphere = ball(V3::new(0.0, 0.0, -3.0), 1.0, grey(0.3));
    let hit = sphere.hit(forward(), s(0.001), s(f32::INFINITY)).unwrap();
    assert_eq!(f(hit.t), 2.0);
    assert_eq!(hit.p, v(V3::new(0.0, 0.0, -2.0)));
    assert_eq!(hit.normal, v(V3::new(0.0, 0.0, 1.0)));
    assert_eq!(hit.mat_ptr, grey(0.3));
    // Searched only up to the near root, the sphere is not hit at all.
    assert_eq!(sphere.hit(forward(), s(0.001), s(2.0)), None);
    // Searched from the near root on, it is hit at the far root.
    assert_eq!(f(sphere.hit(forward(), s(2.0), s(f32::INFINITY)).unwrap().t), 4.0);
    assert_eq!(sphere.hit(forward(), s(4.0), s(f32::INFINITY)), None);
}

#[test]
fn crossings_are_taken_in_ascending_order() {
    let one = Crossing { t: s(1.0), p: v(V3::new(0.0, 0.0, -1.0)), normal: v(V3::new(0.0, 0.0, 1.0)) };
    let two = Crossing { t: s(2.0), p: v(V3::new(0.0, 0.0, -2.0)), normal: v(V3::new(0.0, 0.0, -1.0)) };
    let sorted = Crossings { discriminant: s(1.0), near: one, far: two };
    let swapped = Crossings { discriminant: s(1.0), near: two, far: one };
    assert_eq!(ascending(sorted), (one, two));
    assert_eq!(ascending(swapped), (one, two));
}

#[test]
fn a_ray_from_inside_a_sphere_leaves_through_the_far_root() {
    let scene = Scene::new(vec![ball(V3::new(0.0, 0.0, 0.0), 2.0, grey(0.5))]);
    let hit = scene.closest_hit(forward(), s(0.001), s(f32::INFINITY)).unwrap();
    assert_eq!(f(hit.t), 2.0);
    assert_eq!(hit.p, v(V3::new(0.0, 0.0, -2.0)));
    // The normal points away from the centre, here along the ray.
    assert_eq!(hit.normal, v(V3::new(0.0, 0.0, -1.0)));
}

#[test]
fn a_ray_that_passes_beside_a_sphere_hits_nothing() {
    let scene = Scene::new(vec![ball(V3::new(3.0, 0.0, -5.0), 1.0, grey(0.5))]);
    assert_eq!(scene.closest_hit(forward(), s(0.001), s(f32::INFINITY)), None);
}

#[test]
fn a_sphere_behind_the_ray_is_not_hit() {
    let scene = Scene::new(vec![ball(V3::new(0.0, 0.0, 5.0), 1.0, grey(0.5))]);
    assert_eq!(scene.closest_hit(forward(), s(0.001), s(f32::INFINITY)), None);
}
