//! Materials: what happens to a ray where it meets a surface.
//!
//! A scattering event either sends a new ray on from the hit point, dimmed by an
//! attenuation colour, or absorbs the ray. The directions a ray might take, and the
//! numbers that decide between them, come from numeric kernels, one for each kind of
//! material; which direction is taken, and whether the ray survives, is decided here.
//!
//! With `n` the unit normal at the hit, `d` the direction of the incoming ray and
//! `reflect(v, n) = v - 2 (v . n) n`, the kernels work out:
//!
//! * for a Lambertian surface, the direction from the hit point to a target, which is
//!   the hit point plus `n` plus a random point of the unit ball;
//! * for a metal, `reflect` of the normalised `d`, plus `fuzz` times a random point of
//!   the unit ball, and the dot product of that direction with `n`;
//! * for a dielectric, first `d . n`, by whose sign the ray enters or leaves the medium;
//!   then `reflect(d, n)`, what Snell's law gives for the refracted direction, and
//!   Schlick's reflectance.
//!
//! The random points are drawn here and handed to the kernels, and so is drawn the
//! number that decides between reflection and refraction.
//!
//! For a ray that enters, the normal against the ray is `n`, the ratio of the indices
//! `ni_over_nt = 1 / ref_indx`, and `cosine = -(d . n) / |d|`; for a ray that leaves,
//! they are `-n`, `ref_indx`, and `ref_indx * (d . n) / |d|`. With `uv` the normalised
//! `d`, `m` the normal against the ray and `dt = uv . m`, Snell's law has the
//! discriminant `1 - ni_over_nt^2 (1 - dt^2)` and, where that is positive, the refracted
//! direction `ni_over_nt (uv - m dt) - m sqrt(discriminant)`. Schlick's reflectance is
//! `r0 + (1 - r0) (1 - cosine)^5`, with `r0 = ((1 - ref_indx) / (1 + ref_indx))^2`.

use vstd::prelude::*;
use crate::ray::Ray;
use crate::sampling::draws_from_ball;
use crate::sampling::random_in_unit_sphere;
use crate::sampling::top_bits;
use crate::sampling::Sampler;
use crate::scalar::Scalar;
use crate::scalar::ONE_BITS;
use crate::scene::HittableRecord;
use crate::vector::Vector3;

verus! {

/// The three kinds of surface. Plain data: the behaviour is chosen by matching on the
/// variant.
#[derive(Clone, Copy, Debug, PartialEq, Eq, Structural)]
pub enum MaterialType {
    /// Ideal diffuse reflector.
    Lambertian { albedo: Vector3 },
    /// Mirror, blurred by `fuzz`; 0 is a perfect mirror.
    Metal { albedo: Vector3, fuzz: Scalar },
    /// Clear glass-like material of the given index of refraction.
    Dielectric { ref_indx: Scalar },
}

/// A scattered ray and the fraction of light, per colour channel, that it carries on.
#[derive(Clone, Copy, Debug, PartialEq, Eq, Structural)]
pub struct ScatterRecord {
    pub attenuation: Vector3,
    pub scattered: Ray,
}

/// What the kernel works out for a ray that meets a metal: the fuzzed mirror direction,
/// and its dot product with the normal.
#[derive(Clone, Copy, Debug, PartialEq, Eq, Structural)]
pub struct Mirror {
    pub direction: Vector3,
    pub facing: Scalar,
}

/// What the kernel works out for a ray that meets a dielectric: the reflected direction;
/// the discriminant of Snell's law and the refracted direction, which means nothing
/// unless the discriminant is positive; and the reflectance.
#[derive(Clone, Copy, Debug, PartialEq, Eq, Structural)]
pub struct Interface {
    pub reflected: Vector3,
    pub discriminant: Scalar,
    pub refracted: Vector3,
    pub reflectance: Scalar,
}

/// Something that scatters light at a hit, such as the surfaces of a scene.
///
/// Scattering is random: what is returned depends on what the sampler draws. Whatever
/// is returned, a scattered ray starts at the hit point and is attenuated as the
/// material at the hit says, and only a metal absorbs.
pub trait Scatterable {
    /// Whether `out` is what `scatter` returns for the ray `r_in` at the hit `rec` when
    /// it draws from the sampler `before`, and `after` the sampler when it returns.
    spec fn scatters(
        &self,
        before: Sampler,
        after: Sampler,
        r_in: Ray,
        rec: HittableRecord,
        out: Option<ScatterRecord>,
    ) -> bool;

    fn scatter(&self, r_in: Ray, rec: HittableRecord, sampler: &mut Sampler) -> (out: Option<
        ScatterRecord,
    >)
        ensures
            self.scatters(*old(sampler), *final(sampler), r_in, rec, out),
            out matches Some(s) ==> s.scattered.spec_origin() == rec.p && s.attenuation
                == rec.mat_ptr.attenuation(),
            out is None ==> rec.mat_ptr is Metal,
    ;
}

/// On which side of a dielectric boundary a ray arrives.
#[derive(Clone, Copy, Debug, PartialEq, Eq, Structural)]
pub enum Side {
    /// From outside, against the normal: the ray enters the medium.
    Entering,
    /// From inside, along the normal: the ray leaves the medium.
    Exiting,
}

/// The side on which a ray arrives, given the dot product of its direction with the
/// surface normal: exiting where the product is positive, entering otherwise.
pub open spec fn spec_side_of(dot: Scalar) -> Side {
    if dot.is_positive() {
        Side::Exiting
    } else {
        Side::Entering
    }
}

/// The side on which a ray arrives at a dielectric boundary.
#[verifier::when_used_as_spec(spec_side_of)]
pub fn side_of(dot: Scalar) -> (side: Side)
    ensures
        side == side_of(dot),
{
    if dot.is_positive() {
        Side::Exiting
    } else {
        Side::Entering
    }
}

/// The refracted direction, if there is one: Snell's law has a solution where its
/// discriminant is positive, and `direction` is then the refracted direction. Otherwise
/// the light is totally reflected and nothing is refracted.
pub open spec fn spec_refraction(discriminant: Scalar, direction: Vector3) -> Option<Vector3> {
    if discriminant.is_positive() {
        Some(direction)
    } else {
        None
    }
}

/// The refracted direction, or none on total internal reflection.
#[verifier::when_used_as_spec(spec_refraction)]
pub fn refraction(discriminant: Scalar, direction: Vector3) -> (refracted: Option<Vector3>)
    ensures
        refracted == refraction(discriminant, direction),
        refracted is None <==> !discriminant.is_positive(),
        refracted matches Some(d) ==> d == direction,
{
    if discriminant.is_positive() {
        Some(direction)
    } else {
        None
    }
}

/// White: all light passes.
pub open spec fn spec_white() -> Vector3 {
    Vector3 {
        x: Scalar { bits: ONE_BITS },
        y: Scalar { bits: ONE_BITS },
        z: Scalar { bits: ONE_BITS },
    }
}

/// White: all light passes.
#[verifier::when_used_as_spec(spec_white)]
pub fn white() -> (c: Vector3)
    ensures
        c == white(),
{
    Vector3::new(Scalar::one(), Scalar::one(), Scalar::one())
}

/// Whether light at a dielectric boundary is reflected rather than refracted: always
/// when there is no refracted direction (total internal reflection), and otherwise when
/// the draw falls below the reflectance.
pub open spec fn spec_reflects(
    refracted: Option<Vector3>,
    reflectance: Scalar,
    draw: Scalar,
) -> bool {
    refracted is None || draw.lt(reflectance)
}

/// Whether light at a dielectric boundary is reflected rather than refracted.
#[verifier::when_used_as_spec(spec_reflects)]
pub fn reflects(refracted: Option<Vector3>, reflectance: Scalar, draw: Scalar) -> (b: bool)
    ensures
        b == reflects(refracted, reflectance, draw),
{
    refracted.is_none() || draw.lt(reflectance)
}

impl Mirror {
    /// The direction that a ray takes from a metal: the fuzzed mirror direction if it
    /// still points away from the surface (`facing > 0`); else the ray is absorbed.
    pub open spec fn spec_chosen(self) -> Option<Vector3> {
        if self.facing.is_positive() {
            Some(self.direction)
        } else {
            None
        }
    }

    /// The direction that a ray takes from a metal, or none if the ray is absorbed.
    #[verifier::when_used_as_spec(spec_chosen)]
    pub fn chosen(self) -> (direction: Option<Vector3>)
        ensures
            direction == self.chosen(),
            direction is None <==> !self.facing.is_positive(),
    {
        if self.facing.is_positive() {
            Some(self.direction)
        } else {
            None
        }
    }
}

impl Interface {
    /// The direction that a ray takes from a dielectric, given the uniform draw that
    /// decides: the reflected direction on total internal reflection, and otherwise the
    /// reflected or the refracted direction as `reflects` decides.
    pub open spec fn spec_chosen(self, draw: Scalar) -> Vector3 {
        let refracted = refraction(self.discriminant, self.refracted);
        if reflects(refracted, self.reflectance, draw) {
            self.reflected
        } else {
            self.refracted
        }
    }

    /// The direction that a ray takes from a dielectric.
    #[verifier::when_used_as_spec(spec_chosen)]
    pub fn chosen(self, draw: Scalar) -> (direction: Vector3)
        ensures
            direction == self.chosen(draw),
            !self.discriminant.is_positive() ==> direction == self.reflected,
    {
        let refracted = refraction(self.discriminant, self.refracted);
        match refracted {
            Some(bent) if !reflects(refracted, self.reflectance, draw) => bent,
            _ => self.reflected,
        }
    }
}

impl MaterialType {
    /// The fraction of light, per colour channel, that a ray scattered by this material
    /// carries on: the albedo of a Lambertian surface or a metal, and all of it for a
    /// dielectric.
    pub open spec fn spec_attenuation(self) -> Vector3 {
        match self {
            MaterialType::Lambertian { albedo } => albedo,
            MaterialType::Metal { albedo, .. } => albedo,
            MaterialType::Dielectric { .. } => white(),
        }
    }

    /// The attenuation of every ray that this material scatters.
    #[verifier::when_used_as_spec(spec_attenuation)]
    pub fn attenuation(self) -> (a: Vector3)
        ensures
            a == self.attenuation(),
    {
        match self {
            MaterialType::Lambertian { albedo } => albedo,
            MaterialType::Metal { albedo, .. } => albedo,
            MaterialType::Dielectric { .. } => white(),
        }
    }
}

/// The ray that leaves the hit `rec` along `direction`, attenuated as the material at
/// the hit says.
pub open spec fn spec_scattered(rec: HittableRecord, direction: Vector3) -> ScatterRecord {
    ScatterRecord { attenuation: rec.mat_ptr.attenuation(), scattered: Ray::new(rec.p, direction) }
}

/// The ray that leaves the hit `rec` along `direction`.
#[verifier::when_used_as_spec(spec_scattered)]
pub fn scattered(rec: HittableRecord, direction: Vector3) -> (s: ScatterRecord)
    ensures
        s == scattered(rec, direction),
        s.scattered.spec_origin() == rec.p,
        s.attenuation == rec.mat_ptr.attenuation(),
{
    ScatterRecord { attenuation: rec.mat_ptr.attenuation(), scattered: Ray::new(rec.p, direction) }
}

/// The surfaces of a scene: scatters a ray as the material at the hit demands, on what
/// the sampler draws and on the directions that numeric kernels work out from it: one
/// kernel for Lambertian surfaces, handed a point of the unit ball; one for metals,
/// handed the fuzz of the metal and a point of the unit ball; and two for dielectrics.
/// Of these the first gives the dot product of the direction of the ray with the normal,
/// which decides on which side the ray arrives; the second is handed the index of
/// refraction and that side.
pub struct Surfaces<
    D: Fn(HittableRecord, Vector3) -> Vector3,
    M: Fn(Ray, HittableRecord, Scalar, Vector3) -> Mirror,
    F: Fn(Ray, HittableRecord) -> Scalar,
    I: Fn(Ray, HittableRecord, Scalar, Side) -> Interface,
> {
    diffuse: D,
    mirror: M,
    facing: F,
    interface: I,
}

/// Whether the kernels may be called on everything.
pub open spec fn ready<
    D: Fn(HittableRecord, Vector3) -> Vector3,
    M: Fn(Ray, HittableRecord, Scalar, Vector3) -> Mirror,
    F: Fn(Ray, HittableRecord) -> Scalar,
    I: Fn(Ray, HittableRecord, Scalar, Side) -> Interface,
>(diffuse: D, mirror: M, facing: F, interface: I) -> bool {
    &&& forall|rec: HittableRecord, point: Vector3| call_requires(diffuse, (rec, point))
    &&& forall|r: Ray, rec: HittableRecord, fuzz: Scalar, point: Vector3|
        call_requires(mirror, (r, rec, fuzz, point))
    &&& forall|r: Ray, rec: HittableRecord| call_requires(facing, (r, rec))
    &&& forall|r: Ray, rec: HittableRecord, index: Scalar, side: Side|
        call_requires(interface, (r, rec, index, side))
}

impl<
    D: Fn(HittableRecord, Vector3) -> Vector3,
    M: Fn(Ray, HittableRecord, Scalar, Vector3) -> Mirror,
    F: Fn(Ray, HittableRecord) -> Scalar,
    I: Fn(Ray, HittableRecord, Scalar, Side) -> Interface,
> Surfaces<D, M, F, I> {
    #[verifier::type_invariant]
    closed spec fn sound(self) -> bool {
        ready(self.diffuse, self.mirror, self.facing, self.interface)
    }

    /// The kernel for Lambertian surfaces.
    pub closed spec fn diffuse(&self) -> D {
        self.diffuse
    }

    /// The kernel for metals.
    pub closed spec fn mirror(&self) -> M {
        self.mirror
    }

    /// The kernel that says on which side of a dielectric a ray arrives.
    pub closed spec fn facing(&self) -> F {
        self.facing
    }

    /// The kernel for dielectrics.
    pub closed spec fn interface(&self) -> I {
        self.interface
    }

    pub fn new(diffuse: D, mirror: M, facing: F, interface: I) -> (surfaces: Surfaces<D, M, F, I>)
        requires
            ready(diffuse, mirror, facing, interface),
        ensures
            surfaces.diffuse() == diffuse,
            surfaces.mirror() == mirror,
            surfaces.facing() == facing,
            surfaces.interface() == interface,
    {
        Surfaces { diffuse, mirror, facing, interface }
    }
}

impl<
    D: Fn(HittableRecord, Vector3) -> Vector3,
    M: Fn(Ray, HittableRecord, Scalar, Vector3) -> Mirror,
    F: Fn(Ray, HittableRecord) -> Scalar,
    I: Fn(Ray, HittableRecord, Scalar, Side) -> Interface,
> Scatterable for Surfaces<D, M, F, I> {
    /// * At a Lambertian surface a point of the unit ball is drawn, and the ray goes on
    ///   along the direction that the kernel for Lambertian surfaces makes of it; the
    ///   ray is never absorbed.
    /// * At a metal a point of the unit ball is drawn, and the ray goes on along the
    ///   direction chosen from what the kernel for metals makes of it, or is absorbed
    ///   where none is chosen.
    /// * At a dielectric the kernels say on which side the ray arrives and what
    ///   directions there are; then a number is drawn uniformly, and the ray goes on
    ///   along the direction chosen by it; the ray is never absorbed.
    open spec fn scatters(
        &self,
        before: Sampler,
        after: Sampler,
        r_in: Ray,
        rec: HittableRecord,
        out: Option<ScatterRecord>,
    ) -> bool {
        match rec.mat_ptr {
            MaterialType::Lambertian { .. } => exists|point: Vector3, direction: Vector3|
                #![trigger call_ensures(self.diffuse(), (rec, point), direction)]
                {
                    &&& draws_from_ball(before, after, point)
                    &&& call_ensures(self.diffuse(), (rec, point), direction)
                    &&& out == Some(scattered(rec, direction))
                },
            MaterialType::Metal { fuzz, .. } => exists|point: Vector3, m: Mirror|
                #![trigger call_ensures(self.mirror(), (r_in, rec, fuzz, point), m)]
                {
                    &&& draws_from_ball(before, after, point)
                    &&& call_ensures(self.mirror(), (r_in, rec, fuzz, point), m)
                    &&& out == match m.chosen() {
                        Some(direction) => Some(scattered(rec, direction)),
                        None => None,
                    }
                },
            MaterialType::Dielectric { ref_indx } => exists|dot: Scalar, i: Interface, draw: Scalar|
                #![trigger
                    call_ensures(self.interface(), (r_in, rec, ref_indx, side_of(dot)), i),
                    i.chosen(draw)]
                {
                    &&& call_ensures(self.facing(), (r_in, rec), dot)
                    &&& call_ensures(self.interface(), (r_in, rec, ref_indx, side_of(dot)), i)
                    &&& draw.encodes(top_bits(before.word(0)), 24)
                    &&& after.follows(&before, 1)
                    &&& out == Some(scattered(rec, i.chosen(draw)))
                },
        }
    }

    fn scatter(&self, r_in: Ray, rec: HittableRecord, sampler: &mut Sampler) -> (out: Option<
        ScatterRecord,
    >) {
        proof {
            use_type_invariant(self);
        }
        match rec.mat_ptr {
            MaterialType::Lambertian { .. } => {
                let point = random_in_unit_sphere(sampler);
                let direction = (self.diffuse)(rec, point);
                assert(call_ensures(self.diffuse(), (rec, point), direction));
                Some(scattered(rec, direction))
            },
            MaterialType::Metal { fuzz, .. } => {
                let point = random_in_unit_sphere(sampler);
                let m = (self.mirror)(r_in, rec, fuzz, point);
                assert(call_ensures(self.mirror(), (r_in, rec, fuzz, point), m));
                match m.chosen() {
                    Some(direction) => Some(scattered(rec, direction)),
                    None => None,
                }
            },
            MaterialType::Dielectric { ref_indx } => {
                let dot = (self.facing)(r_in, rec);
                let i = (self.interface)(r_in, rec, ref_indx, side_of(dot));
                let draw = sampler.uniform();
                assert(call_ensures(self.facing(), (r_in, rec), dot));
                assert(call_ensures(self.interface(), (r_in, rec, ref_indx, side_of(dot)), i));
                Some(scattered(rec, i.chosen(draw)))
            },
        }
    }
}

} // verus!
