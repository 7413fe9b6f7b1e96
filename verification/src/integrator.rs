//! The path integrator: following one ray through the scene, bounce by bounce.
//!
//! The radiance that arrives along a ray is the background seen by the last ray of its
//! path, dimmed in turn by the attenuation of every bounce on the way, or black if the
//! path ends on a surface. `trace` builds the path and `radiance` follows the light back
//! along it; `color` does both.
//!
//! Two numeric kernels do the arithmetic of light. The background along a ray is a
//! blend of `nadir` and `zenith`: with `y` the height of the normalised direction of the
//! ray and `t = (y + 1) / 2`, it is `(1 - t) * nadir + t * zenith`. Attenuating a colour
//! multiplies it by the attenuation, channel by channel.

use vstd::prelude::*;
use crate::materials::ScatterRecord;
use crate::materials::Scatterable;
use crate::ray::Ray;
use crate::sampling::Sampler;
use crate::scalar::Scalar;
use crate::scalar::INFINITY_BITS;
use crate::scalar::ONE_BITS;
use crate::scene::is_closest;
use crate::scene::lemma_nearest_is_closest;
use crate::scene::nearest;
use crate::scene::all_orderly;
use crate::scene::Hittable;
use crate::scene::HittableRecord;
use crate::scene::Scene;
use crate::vector::Vector3;

verus! {

/// The most bounces a path may have.
pub const MAX_DEPTH: u32 = 50;

/// Bits of 0.001, the lower bound of every intersection search. It keeps a scattered ray
/// from hitting, at a parameter of almost zero, the very surface it leaves.
pub const SHADOW_EPSILON_BITS: u32 = 0x3a83_126f;

/// Lower bound of every intersection search.
pub open spec fn spec_t_near() -> Scalar {
    Scalar { bits: SHADOW_EPSILON_BITS }
}

/// Lower bound of every intersection search.
#[verifier::when_used_as_spec(spec_t_near)]
pub fn t_near() -> (t: Scalar)
    ensures
        t == t_near(),
{
    Scalar::from_bits(SHADOW_EPSILON_BITS)
}

/// Upper bound of every intersection search: positive infinity.
pub open spec fn spec_t_far() -> Scalar {
    Scalar { bits: INFINITY_BITS }
}

/// Upper bound of every intersection search: positive infinity.
#[verifier::when_used_as_spec(spec_t_far)]
pub fn t_far() -> (t: Scalar)
    ensures
        t == t_far(),
{
    Scalar::infinity()
}

/// Colour of the background straight below: white.
pub open spec fn spec_nadir() -> Vector3 {
    Vector3 {
        x: Scalar { bits: ONE_BITS },
        y: Scalar { bits: ONE_BITS },
        z: Scalar { bits: ONE_BITS },
    }
}

/// Colour of the background straight below: white, `(1, 1, 1)`. The background seen
/// along a ray is a blend of this and `zenith`, in proportion to the height of the ray's
/// normalised direction, so that a level ray sees half of each.
#[verifier::when_used_as_spec(spec_nadir)]
pub fn nadir() -> (c: Vector3)
    ensures
        c == nadir(),
{
    Vector3::from_bits(ONE_BITS, ONE_BITS, ONE_BITS)
}

/// Colour of the background straight above: sky blue.
pub open spec fn spec_zenith() -> Vector3 {
    Vector3 {
        x: Scalar { bits: 0x3f00_0000 },
        y: Scalar { bits: 0x3f33_3333 },
        z: Scalar { bits: ONE_BITS },
    }
}

/// Colour of the background straight above: sky blue, `(0.5, 0.7, 1)`.
#[verifier::when_used_as_spec(spec_zenith)]
pub fn zenith() -> (c: Vector3)
    ensures
        c == zenith(),
{
    Vector3::from_bits(0x3f00_0000, 0x3f33_3333, ONE_BITS)
}

/// How a path ends.
#[derive(Clone, Copy, Debug, PartialEq, Eq, Structural)]
pub enum PathEnd {
    /// The last ray meets nothing and sees the background.
    Escaped,
    /// The last surface absorbed the ray: black.
    Absorbed,
    /// The last surface scattered the ray, but the path already had `MAX_DEPTH`
    /// bounces: black.
    Exhausted,
}

/// What follows a hit.
#[derive(Clone, Copy, Debug, PartialEq, Eq, Structural)]
pub enum Verdict {
    /// The path goes on along `scattered`, dimmed by `attenuation`.
    Scattered { attenuation: Vector3, scattered: Ray },
    /// The path ends here.
    Ended { end: PathEnd },
}

/// One scattering event on a path: the ray that arrived, where it hit, and the
/// attenuation with which the path went on.
#[derive(Clone, Copy, Debug, PartialEq, Eq, Structural)]
pub struct Bounce {
    pub ray: Ray,
    pub hit: HittableRecord,
    pub attenuation: Vector3,
}

/// The path of one ray: its bounces in order, the ray followed after the last of them,
/// and what became of that ray.
#[derive(Debug)]
pub struct LightPath {
    pub bounces: Vec<Bounce>,
    pub last_ray: Ray,
    pub end: PathEnd,
}

/// What follows a hit at which the material returned `scattered`, on a path that has
/// `depth` bounces behind it: absorbed if the material returned nothing; otherwise the
/// path goes on if it has fewer than `MAX_DEPTH` bounces, and is exhausted if not.
pub open spec fn spec_decide(depth: u32, scattered: Option<ScatterRecord>) -> Verdict {
    match scattered {
        None => Verdict::Ended { end: PathEnd::Absorbed },
        Some(s) => if depth < MAX_DEPTH {
            Verdict::Scattered { attenuation: s.attenuation, scattered: s.scattered }
        } else {
            Verdict::Ended { end: PathEnd::Exhausted }
        },
    }
}

/// What follows a hit at which the material returned `scattered`, on a path that has
/// `depth` bounces behind it.
#[verifier::when_used_as_spec(spec_decide)]
pub fn decide(depth: u32, scattered: Option<ScatterRecord>) -> (v: Verdict)
    ensures
        v == decide(depth, scattered),
{
    match scattered {
        None => Verdict::Ended { end: PathEnd::Absorbed },
        Some(s) => if depth < MAX_DEPTH {
            Verdict::Scattered { attenuation: s.attenuation, scattered: s.scattered }
        } else {
            Verdict::Ended { end: PathEnd::Exhausted }
        },
    }
}

impl LightPath {
    /// The ray followed after `k` bounces.
    pub open spec fn ray_at(self, k: int) -> Ray {
        if 0 <= k < self.bounces.len() {
            self.bounces[k].ray
        } else {
            self.last_ray
        }
    }

    /// What the material returned at bounce `k`: the attenuation of the bounce and the
    /// ray that the path followed next.
    pub open spec fn scattered_at(self, k: int) -> ScatterRecord {
        ScatterRecord { attenuation: self.bounces[k].attenuation, scattered: self.ray_at(k + 1) }
    }

    /// Whether this is the path of the ray `r` through `objects`, scattered by
    /// `surface`, for a ray that already has `depth` bounces behind it, where `states`
    /// are the sampler before each bounce and after the last, and `after` is the
    /// sampler when the path has ended:
    ///
    /// * the path starts with `r`;
    /// * every bounce is at the nearest hit of its ray, and what `surface` returned
    ///   there is the attenuation of the bounce, which is that of the material hit, and
    ///   the next ray of the path, which starts at the hit point;
    /// * no bounce is made by a ray that has `MAX_DEPTH` bounces behind it;
    /// * the path has escaped if its last ray hits nothing; it is absorbed if `surface`
    ///   returned nothing at the hit of its last ray, which only a metal does; and it
    ///   is exhausted if `surface` scattered its last ray, but that ray had `MAX_DEPTH`
    ///   bounces behind it, or more.
    pub open spec fn threads<H: Hittable, S: Scatterable>(
        self,
        objects: Seq<H>,
        surface: &S,
        r: Ray,
        depth: u32,
        states: Seq<Sampler>,
        after: Sampler,
    ) -> bool {
        &&& states.len() == self.bounces.len() + 1
        &&& self.ray_at(0) == r
        &&& self.bounces.len() > 0 ==> depth + self.bounces.len() <= MAX_DEPTH
        &&& forall|k: int|
            0 <= k < self.bounces.len() ==> {
                &&& nearest(objects, (#[trigger] self.bounces[k]).ray, t_near(), t_far()) == Some(
                    self.bounces[k].hit,
                )
                &&& surface.scatters(
                    states[k],
                    states[k + 1],
                    self.bounces[k].ray,
                    self.bounces[k].hit,
                    Some(self.scattered_at(k)),
                )
                &&& self.ray_at(k + 1).spec_origin() == self.bounces[k].hit.p
                &&& self.bounces[k].attenuation == self.bounces[k].hit.mat_ptr.attenuation()
            }
        &&& match self.end {
            PathEnd::Escaped => {
                &&& nearest(objects, self.last_ray, t_near(), t_far()) is None
                &&& after == states.last()
            },
            PathEnd::Absorbed => {
                &&& nearest(objects, self.last_ray, t_near(), t_far()) matches Some(h)
                &&& surface.scatters(states.last(), after, self.last_ray, h, None)
                &&& h.mat_ptr is Metal
            },
            PathEnd::Exhausted => {
                &&& nearest(objects, self.last_ray, t_near(), t_far()) matches Some(h)
                &&& exists|s: ScatterRecord|
                    surface.scatters(states.last(), after, self.last_ray, h, Some(s))
                &&& depth + self.bounces.len() >= MAX_DEPTH
            },
        }
    }

    /// Whether this is the path of the ray `r` through `objects`, scattered by
    /// `surface`, as it is found with the sampler `before`, and `after` the sampler when
    /// it is found.
    pub open spec fn follows<H: Hittable, S: Scatterable>(
        self,
        objects: Seq<H>,
        surface: &S,
        r: Ray,
        depth: u32,
        before: Sampler,
        after: Sampler,
    ) -> bool {
        exists|states: Seq<Sampler>| #[trigger]
            self.threads(objects, surface, r, depth, states, after) && states[0] == before
    }
}

/// Follows the ray `r` through the scene until it escapes, is absorbed, or has bounced
/// too often. `depth` is the number of bounces the ray already has behind it; a ray from
/// the camera starts at 0.
///
/// At each step the nearest hit of the current ray beyond `t_near()` is looked up. If
/// there is none the path has escaped. Otherwise `surface` scatters the ray at the hit,
/// and `decide` says whether the path goes on along the scattered ray.
pub fn trace<H: Hittable, S: Scatterable>(
    r: Ray,
    scene: &Scene<H>,
    surface: &S,
    depth: u32,
    sampler: &mut Sampler,
) -> (path: LightPath)
    ensures
        path.follows(scene.objects@, surface, r, depth, *old(sampler), *final(sampler)),
{
    let mut bounces: Vec<Bounce> = Vec::new();
    let mut ray = r;
    let mut d: u32 = depth;
    let ghost mut states: Seq<Sampler> = seq![*sampler];
    loop
        invariant
            d == depth + bounces.len(),
            bounces.len() > 0 ==> d <= MAX_DEPTH,
            bounces.len() == 0 ==> ray == r,
            bounces.len() > 0 ==> bounces[0].ray == r,
            states.len() == bounces.len() + 1,
            states[0] == *old(sampler),
            states.last() == *sampler,
            forall|k: int|
                0 <= k < bounces.len() ==> {
                    &&& nearest(scene.objects@, (#[trigger] bounces[k]).ray, t_near(), t_far())
                        == Some(bounces[k].hit)
                    &&& surface.scatters(
                        states[k],
                        states[k + 1],
                        bounces[k].ray,
                        bounces[k].hit,
                        Some(
                            ScatterRecord {
                                attenuation: bounces[k].attenuation,
                                scattered: if k + 1 < bounces.len() {
                                    bounces[k + 1].ray
                                } else {
                                    ray
                                },
                            },
                        ),
                    )
                    &&& (if k + 1 < bounces.len() {
                        bounces[k + 1].ray
                    } else {
                        ray
                    }).spec_origin() == bounces[k].hit.p
                    &&& bounces[k].attenuation == bounces[k].hit.mat_ptr.attenuation()
                },
        decreases MAX_DEPTH - d,
    {
        let hit = match scene.closest_hit(ray, t_near(), t_far()) {
            None => {
                let path = LightPath { bounces, last_ray: ray, end: PathEnd::Escaped };
                proof {
                    assert(path.threads(scene.objects@, surface, r, depth, states, *sampler));
                }
                return path;
            },
            Some(h) => h,
        };
        let scattered = surface.scatter(ray, hit, sampler);
        match decide(d, scattered) {
            Verdict::Ended { end } => {
                let path = LightPath { bounces, last_ray: ray, end };
                proof {
                    assert(path.threads(scene.objects@, surface, r, depth, states, *sampler));
                }
                return path;
            },
            Verdict::Scattered { attenuation, scattered } => {
                proof {
                    states = states.push(*sampler);
                }
                bounces.push(Bounce { ray, hit, attenuation });
                ray = scattered;
                d = d + 1;
            },
        }
    }
}

/// Black: no light.
pub open spec fn spec_black() -> Vector3 {
    Vector3 { x: Scalar { bits: 0 }, y: Scalar { bits: 0 }, z: Scalar { bits: 0 } }
}

/// Black: no light.
#[verifier::when_used_as_spec(spec_black)]
pub fn black() -> (c: Vector3)
    ensures
        c == black(),
{
    Vector3::new(Scalar::zero(), Scalar::zero(), Scalar::zero())
}

/// Whether the two kernels of radiance may be called on everything: `background`,
/// which gives the colour of the sky along a ray, and `attenuate`, which multiplies an
/// attenuation into a colour, channel by channel.
pub open spec fn lit<B: Fn(Ray) -> Vector3, M: Fn(Vector3, Vector3) -> Vector3>(
    background: B,
    attenuate: M,
) -> bool {
    &&& forall|r: Ray| call_requires(background, (r,))
    &&& forall|a: Vector3, c: Vector3| call_requires(attenuate, (a, c))
}

impl LightPath {
    /// Whether `lights` is the light that an escaped path carries back, bounce by
    /// bounce: its last entry is what `background` returns for the last ray, and every
    /// entry before is what `attenuate` makes of the attenuation of the bounce of that
    /// number and the entry after. The first entry is the light that arrives.
    pub open spec fn carries<B: Fn(Ray) -> Vector3, M: Fn(Vector3, Vector3) -> Vector3>(
        self,
        background: B,
        attenuate: M,
        lights: Seq<Vector3>,
    ) -> bool {
        &&& lights.len() == self.bounces.len() + 1
        &&& call_ensures(background, (self.last_ray,), lights.last())
        &&& forall|k: int|
            0 <= k < self.bounces.len() ==> call_ensures(
                attenuate,
                (self.bounces[k].attenuation, lights[k + 1]),
                #[trigger] lights[k],
            )
    }

    /// Whether `light` is the radiance that arrives along the path: the background of
    /// its last ray, attenuated by every bounce from the last back to the first, if the
    /// path has escaped; black if it was absorbed or is exhausted.
    pub open spec fn shines<B: Fn(Ray) -> Vector3, M: Fn(Vector3, Vector3) -> Vector3>(
        self,
        background: B,
        attenuate: M,
        light: Vector3,
    ) -> bool {
        if self.end is Escaped {
            exists|lights: Seq<Vector3>| #[trigger]
                self.carries(background, attenuate, lights) && lights[0] == light
        } else {
            light == black()
        }
    }
}

/// The radiance that arrives along a path.
pub fn radiance<B: Fn(Ray) -> Vector3, M: Fn(Vector3, Vector3) -> Vector3>(
    path: &LightPath,
    background: &B,
    attenuate: &M,
) -> (light: Vector3)
    requires
        lit(*background, *attenuate),
    ensures
        path.shines(*background, *attenuate, light),
{
    match path.end {
        PathEnd::Escaped => {},
        _ => {
            return black();
        },
    }
    let count = path.bounces.len();
    let mut light = background(path.last_ray);
    let ghost mut lights: Seq<Vector3> = seq![light];
    let mut k: usize = count;
    while k > 0
        invariant
            k <= count,
            count == path.bounces.len(),
            lit(*background, *attenuate),
            lights.len() == count - k + 1,
            lights[0] == light,
            call_ensures(*background, (path.last_ray,), lights.last()),
            forall|j: int|
                k <= j < count ==> call_ensures(
                    *attenuate,
                    (path.bounces[j].attenuation, lights[j - k + 1]),
                    #[trigger] lights[j - k],
                ),
        decreases k,
    {
        k = k - 1;
        let ghost beyond = lights;
        light = attenuate(path.bounces[k].attenuation, light);
        proof {
            lights = seq![light] + beyond;
            assert(lights.last() == beyond.last());
            assert forall|j: int| k <= j < count implies call_ensures(
                *attenuate,
                (path.bounces[j].attenuation, lights[j - k + 1]),
                #[trigger] lights[j - k],
            ) by {
                if j > k {
                    assert(lights[j - k] == beyond[j - (k + 1)]);
                    assert(lights[j - k + 1] == beyond[j - (k + 1) + 1]);
                } else {
                    assert(lights[1] == beyond[0]);
                }
            }
        }
    }
    proof {
        assert forall|j: int| 0 <= j < path.bounces.len() implies call_ensures(
            *attenuate,
            (path.bounces[j].attenuation, lights[j + 1]),
            #[trigger] lights[j],
        ) by {
            assert(lights[j - k] == lights[j]);
        }
        assert(path.carries(*background, *attenuate, lights));
    }
    light
}

/// The radiance that arrives along the ray `r`, which has `depth` bounces behind it:
/// the radiance of the path that `trace` finds for it.
pub fn color<
    H: Hittable,
    S: Scatterable,
    B: Fn(Ray) -> Vector3,
    M: Fn(Vector3, Vector3) -> Vector3,
>(
    r: Ray,
    world: &Scene<H>,
    surface: &S,
    depth: u32,
    sampler: &mut Sampler,
    background: &B,
    attenuate: &M,
) -> (light: Vector3)
    requires
        lit(*background, *attenuate),
    ensures
        exists|path: LightPath| #[trigger]
            path.follows(world.objects@, surface, r, depth, *old(sampler), *final(sampler))
                && path.shines(*background, *attenuate, light),
{
    let path = trace(r, world, surface, depth, sampler);
    radiance(&path, background, attenuate)
}

/// Over orderly objects, every bounce of a path is at the closest hit of its ray.
pub proof fn lemma_bounces_are_closest<H: Hittable, S: Scatterable>(
    path: LightPath,
    objects: Seq<H>,
    surface: &S,
    r: Ray,
    depth: u32,
    before: Sampler,
    after: Sampler,
)
    requires
        path.follows(objects, surface, r, depth, before, after),
        forall|ray: Ray| #[trigger] all_orderly(objects, ray, t_near()),
    ensures
        forall|k: int|
            0 <= k < path.bounces.len() ==> is_closest(
                (#[trigger] path.bounces[k]).hit,
                objects,
                path.bounces[k].ray,
                t_near(),
                t_far(),
            ),
{
    assert forall|k: int| 0 <= k < path.bounces.len() implies is_closest(
        (#[trigger] path.bounces[k]).hit,
        objects,
        path.bounces[k].ray,
        t_near(),
        t_far(),
    ) by {
        let ray = path.bounces[k].ray;
        assert(all_orderly(objects, ray, t_near()));
        lemma_nearest_is_closest(objects, ray, t_near(), t_far());
    }
}

/// In a scene without objects every path escapes at once: it has no bounce, its last
/// ray is the ray it started with, and nothing is drawn.
pub proof fn lemma_empty_scene_path<H: Hittable, S: Scatterable>(
    path: LightPath,
    objects: Seq<H>,
    surface: &S,
    r: Ray,
    depth: u32,
    before: Sampler,
    after: Sampler,
)
    requires
        objects.len() == 0,
        path.follows(objects, surface, r, depth, before, after),
    ensures
        path.bounces.len() == 0,
        path.last_ray == r,
        path.end is Escaped,
        after == before,
{
    if path.bounces.len() > 0 {
        assert(nearest(objects, path.bounces[0].ray, t_near(), t_far()) is None);
    }
}

/// In a scene without objects the radiance along every ray is exactly the background
/// along that ray.
pub proof fn lemma_empty_scene_shows_the_background<
    H: Hittable,
    S: Scatterable,
    B: Fn(Ray) -> Vector3,
    M: Fn(Vector3, Vector3) -> Vector3,
>(
    path: LightPath,
    objects: Seq<H>,
    surface: &S,
    r: Ray,
    depth: u32,
    before: Sampler,
    after: Sampler,
    background: B,
    attenuate: M,
    light: Vector3,
)
    requires
        objects.len() == 0,
        path.follows(objects, surface, r, depth, before, after),
        path.shines(background, attenuate, light),
    ensures
        call_ensures(background, (r,), light),
{
    lemma_empty_scene_path(path, objects, surface, r, depth, before, after);
    let lights = choose|lights: Seq<Vector3>| #[trigger]
        path.carries(background, attenuate, lights) && lights[0] == light;
    assert(lights.last() == lights[0]);
}

} // verus!
