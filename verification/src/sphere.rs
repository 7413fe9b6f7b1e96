//! Spheres, and which root of the ray-sphere equation counts as the hit.
//!
//! For a ray `O + t D` and a sphere of centre `C` and radius `r`, with `oc = O - C`,
//! `a = D.D`, `b = oc.D` and `c = oc.oc - r^2`, the ray meets the sphere where
//! `a t^2 + 2 b t + c = 0`. A numeric kernel evaluates the discriminant `b^2 - a c` and
//! the two roots `(-b -+ sqrt(discriminant)) / a`, and for each root `t` the point
//! `P = O + t D` and the normal `(P - C) / r`, which has unit length and points away
//! from the centre. Which of the two crossings is the hit, if any, is decided here.

use vstd::prelude::*;
use crate::materials::MaterialType;
use crate::ray::Ray;
use crate::scalar::lemma_lt_is_strict;
use crate::scalar::Scalar;
use crate::scene::all_orderly;
use crate::scene::is_closest;
use crate::scene::lemma_nearest_is_closest;
use crate::scene::lemma_root_selection_is_orderly;
use crate::scene::nearest;
use crate::scene::orderly;
use crate::scene::Hittable;
use crate::scene::HittableRecord;
use crate::vector::Vector3;

verus! {

/// Whether `t` lies strictly between `t_min` and `t_max`.
pub open spec fn spec_inside(t: Scalar, t_min: Scalar, t_max: Scalar) -> bool {
    t_min.lt(t) && t.lt(t_max)
}

/// Whether `t` lies strictly between `t_min` and `t_max`.
#[verifier::when_used_as_spec(spec_inside)]
pub fn inside(t: Scalar, t_min: Scalar, t_max: Scalar) -> (b: bool)
    ensures
        b == inside(t, t_min, t_max),
{
    t_min.lt(t) && t.lt(t_max)
}

/// The parameter of the hit: the near root if it is inside the interval, else the far
/// root if that one is, else none; and none at all unless the discriminant is positive.
pub open spec fn spec_select_root(
    discriminant: Scalar,
    near: Scalar,
    far: Scalar,
    t_min: Scalar,
    t_max: Scalar,
) -> Option<Scalar> {
    if !discriminant.is_positive() {
        None
    } else if inside(near, t_min, t_max) {
        Some(near)
    } else if inside(far, t_min, t_max) {
        Some(far)
    } else {
        None
    }
}

/// Chooses the hit among the two roots `near = (-b - sqrt(discriminant)) / a` and
/// `far = (-b + sqrt(discriminant)) / a`.
///
/// There is a hit exactly when the discriminant is positive and one of the roots lies
/// strictly inside `(t_min, t_max)`. The near root is tried first, so that the surface
/// closest along the ray wins; the far root serves a ray that starts inside the sphere,
/// or so close to the surface that the near root falls at or below `t_min`.
#[verifier::when_used_as_spec(spec_select_root)]
pub fn select_root(
    discriminant: Scalar,
    near: Scalar,
    far: Scalar,
    t_min: Scalar,
    t_max: Scalar,
) -> (t: Option<Scalar>)
    ensures
        t == select_root(discriminant, near, far, t_min, t_max),
        t is Some <==> discriminant.is_positive() && (inside(near, t_min, t_max) || inside(
            far,
            t_min,
            t_max,
        )),
        t matches Some(root) ==> inside(root, t_min, t_max) && root == (if inside(
            near,
            t_min,
            t_max,
        ) {
            near
        } else {
            far
        }),
{
    if !discriminant.is_positive() {
        None
    } else if inside(near, t_min, t_max) {
        Some(near)
    } else if inside(far, t_min, t_max) {
        Some(far)
    } else {
        None
    }
}

/// The hit is the smallest root inside the interval: where the roots come in their
/// natural order, no root inside the interval lies below the one chosen.
pub proof fn lemma_select_root_is_smallest(
    discriminant: Scalar,
    near: Scalar,
    far: Scalar,
    t_min: Scalar,
    t_max: Scalar,
)
    requires
        !far.lt(near),
    ensures
        select_root(discriminant, near, far, t_min, t_max) matches Some(root) ==> {
            &&& inside(near, t_min, t_max) ==> root.le(near)
            &&& inside(far, t_min, t_max) ==> root.le(far)
        },
{
}

/// Lowering the upper bound of the interval never brings a new hit into view: below a
/// bound that still admits the hit, the hit stays what it was; at or below the hit
/// itself, nothing is hit; and where nothing was hit, nothing is. This is what lets a
/// scene search each further object only up to the nearest hit found so far.
pub proof fn lemma_select_root_is_orderly(
    discriminant: Scalar,
    near: Scalar,
    far: Scalar,
    t_min: Scalar,
    t_max: Scalar,
    cut: Scalar,
)
    requires
        !far.lt(near),
        cut.le(t_max),
    ensures
        match select_root(discriminant, near, far, t_min, t_max) {
            None => select_root(discriminant, near, far, t_min, cut) is None,
            Some(root) => if root.lt(cut) {
                select_root(discriminant, near, far, t_min, cut) == Some(root)
            } else {
                select_root(discriminant, near, far, t_min, cut) is None
            },
        },
{
}

/// Where the line of a ray crosses the surface of a sphere: the ray parameter, the
/// point, and the outward normal there.
#[derive(Clone, Copy, Debug, PartialEq, Eq, Structural)]
pub struct Crossing {
    pub t: Scalar,
    pub p: Vector3,
    pub normal: Vector3,
}

/// What the numeric kernel works out for a sphere and a ray: the discriminant of the
/// quadratic, and the crossings at its two roots. Where the discriminant is not
/// positive the crossings mean nothing.
#[derive(Clone, Copy, Debug, PartialEq, Eq, Structural)]
pub struct Crossings {
    pub discriminant: Scalar,
    pub near: Crossing,
    pub far: Crossing,
}

/// Whether a kernel may be called on every centre, radius and ray, and answers the same
/// question always with the same answer.
pub open spec fn pure<K: Fn(Vector3, Scalar, Ray) -> Crossings>(kernel: K) -> bool {
    &&& forall|center: Vector3, radius: Scalar, r: Ray| call_requires(kernel, (center, radius, r))
    &&& forall|center: Vector3, radius: Scalar, r: Ray, a: Crossings, b: Crossings|
        call_ensures(kernel, (center, radius, r), a) && call_ensures(kernel, (center, radius, r), b)
            ==> a == b
}

/// The two crossings with the smaller parameter first.
pub open spec fn spec_ascending(k: Crossings) -> (Crossing, Crossing) {
    if k.far.t.lt(k.near.t) {
        (k.far, k.near)
    } else {
        (k.near, k.far)
    }
}

/// The two crossings with the smaller parameter first.
#[verifier::when_used_as_spec(spec_ascending)]
pub fn ascending(k: Crossings) -> (pair: (Crossing, Crossing))
    ensures
        pair == ascending(k),
        !pair.1.t.lt(pair.0.t),
{
    if k.far.t.lt(k.near.t) {
        (k.far, k.near)
    } else {
        (k.near, k.far)
    }
}

/// A sphere: centre, radius and material, with the kernel that does its arithmetic. It
/// does not change once it is made.
pub struct Sphere<K: Fn(Vector3, Scalar, Ray) -> Crossings> {
    center: Vector3,
    radius: Scalar,
    mat_ptr: MaterialType,
    kernel: K,
}

impl<K: Fn(Vector3, Scalar, Ray) -> Crossings> Sphere<K> {
    #[verifier::type_invariant]
    closed spec fn sound(self) -> bool {
        pure(self.kernel)
    }

    /// The centre.
    pub closed spec fn spec_center(&self) -> Vector3 {
        self.center
    }

    /// The radius.
    pub closed spec fn spec_radius(&self) -> Scalar {
        self.radius
    }

    /// The material.
    pub closed spec fn spec_material(&self) -> MaterialType {
        self.mat_ptr
    }

    /// The kernel.
    pub closed spec fn kernel(&self) -> K {
        self.kernel
    }

    /// What the kernel works out for this sphere and the ray `r`.
    pub open spec fn crossings(&self, r: Ray) -> Crossings {
        choose|k: Crossings| call_ensures(self.kernel(), (self.center(), self.radius(), r), k)
    }

    /// The record of a hit at the crossing `c`.
    pub open spec fn record(&self, c: Crossing) -> HittableRecord {
        HittableRecord { t: c.t, p: c.p, normal: c.normal, mat_ptr: self.material() }
    }

    pub fn new(cen: Vector3, r: Scalar, mat: MaterialType, kernel: K) -> (sphere: Sphere<K>)
        requires
            pure(kernel),
        ensures
            sphere.center() == cen,
            sphere.radius() == r,
            sphere.material() == mat,
            sphere.kernel() == kernel,
    {
        Sphere { center: cen, radius: r, mat_ptr: mat, kernel }
    }

    #[verifier::when_used_as_spec(spec_center)]
    pub fn center(&self) -> (c: Vector3)
        ensures
            c == self.center(),
    {
        self.center
    }

    #[verifier::when_used_as_spec(spec_radius)]
    pub fn radius(&self) -> (r: Scalar)
        ensures
            r == self.radius(),
    {
        self.radius
    }

    #[verifier::when_used_as_spec(spec_material)]
    pub fn material(&self) -> (m: MaterialType)
        ensures
            m == self.material(),
    {
        self.mat_ptr
    }
}

impl<K: Fn(Vector3, Scalar, Ray) -> Crossings> Hittable for Sphere<K> {
    /// The crossing at the smallest root strictly inside `(t_min, t_max)`, with the
    /// material of the sphere; none unless the discriminant is positive and a root lies
    /// inside.
    open spec fn intersection(&self, r: Ray, t_min: Scalar, t_max: Scalar) -> Option<
        HittableRecord,
    > {
        let k = self.crossings(r);
        let (first, second) = ascending(k);
        match select_root(k.discriminant, first.t, second.t, t_min, t_max) {
            Some(t) => Some(
                self.record(
                    if inside(first.t, t_min, t_max) {
                        first
                    } else {
                        second
                    },
                ),
            ),
            None => None,
        }
    }

    fn hit(&self, r: Ray, t_min: Scalar, t_max: Scalar) -> (rec: Option<HittableRecord>) {
        proof {
            use_type_invariant(self);
        }
        let k = (self.kernel)(self.center, self.radius, r);
        let (first, second) = ascending(k);
        match select_root(k.discriminant, first.t, second.t, t_min, t_max) {
            Some(t) => {
                let c = if inside(first.t, t_min, t_max) {
                    first
                } else {
                    second
                };
                Some(HittableRecord { t: c.t, p: c.p, normal: c.normal, mat_ptr: self.mat_ptr })
            },
            None => None,
        }
    }
}

/// What the kernel of a sphere returns for a ray is what the sphere goes by.
pub proof fn lemma_crossings_are_what_the_kernel_returns<K: Fn(Vector3, Scalar, Ray) -> Crossings>(
    sphere: Sphere<K>,
    r: Ray,
    k: Crossings,
)
    requires
        pure(sphere.kernel()),
        call_ensures(sphere.kernel(), (sphere.center(), sphere.radius(), r), k),
    ensures
        sphere.crossings(r) == k,
{
}

/// A sphere is orderly: lowering the upper bound of a search only ever hides its hit.
pub proof fn lemma_sphere_is_orderly<K: Fn(Vector3, Scalar, Ray) -> Crossings>(
    sphere: Sphere<K>,
    r: Ray,
    t_min: Scalar,
)
    ensures
        orderly(sphere, r, t_min),
{
    let k = sphere.crossings(r);
    let (first, second) = ascending(k);
    let record = |t: Scalar|
        if t == first.t {
            sphere.record(first)
        } else {
            sphere.record(second)
        };
    lemma_lt_is_strict(k.far.t, k.near.t, k.far.t);
    assert forall|t_max: Scalar| #[trigger]
        sphere.intersection(r, t_min, t_max) == match select_root(
            k.discriminant,
            first.t,
            second.t,
            t_min,
            t_max,
        ) {
            Some(t) => Some(record(t)),
            None => None,
        } by {
    }
    lemma_root_selection_is_orderly(sphere, r, t_min, k.discriminant, first.t, second.t, record);
}

/// In a scene of spheres the scan finds the closest hit: the hit with the least
/// parameter over all spheres, and among equals that of the first sphere.
pub proof fn lemma_scene_of_spheres<K: Fn(Vector3, Scalar, Ray) -> Crossings>(
    objects: Seq<Sphere<K>>,
    r: Ray,
    t_min: Scalar,
    t_max: Scalar,
)
    ensures
        all_orderly(objects, r, t_min),
        nearest(objects, r, t_min, t_max) matches Some(h) ==> is_closest(
            h,
            objects,
            r,
            t_min,
            t_max,
        ),
{
    assert forall|i: int| 0 <= i < objects.len() implies orderly(#[trigger] objects[i], r, t_min) by {
        lemma_sphere_is_orderly(objects[i], r, t_min);
    }
    lemma_nearest_is_closest(objects, r, t_min, t_max);
}

} // verus!
