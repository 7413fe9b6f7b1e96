//! Scenes: finding the nearest surface that a ray meets.

use vstd::prelude::*;
use crate::materials::MaterialType;
use crate::ray::Ray;
use crate::scalar::Scalar;
use crate::scalar::lemma_lt_is_strict;
use crate::scalar::lemma_lt_is_total;
use crate::sphere::inside;
use crate::sphere::lemma_select_root_is_orderly;
use crate::sphere::select_root;
use crate::vector::Vector3;

verus! {

/// Where a ray meets a surface: the ray parameter `t`, the point `p`, the unit normal
/// pointing away from the surface, and the material of the surface (a copy, so that the
/// record does not depend on the scene staying alive).
#[derive(Clone, Copy, Debug, PartialEq, Eq, Structural)]
pub struct HittableRecord {
    pub t: Scalar,
    pub p: Vector3,
    pub normal: Vector3,
    pub mat_ptr: MaterialType,
}

/// Something a ray can hit, such as a sphere.
///
/// The intersection test is a function of the object, the ray and the interval, and it
/// reports only hits whose parameter lies strictly inside the interval.
pub trait Hittable {
    /// The hit of `r` on this object within `(t_min, t_max)`, if there is one.
    spec fn intersection(&self, r: Ray, t_min: Scalar, t_max: Scalar) -> Option<HittableRecord>;

    fn hit(&self, r: Ray, t_min: Scalar, t_max: Scalar) -> (rec: Option<HittableRecord>)
        ensures
            rec == self.intersection(r, t_min, t_max),
            rec matches Some(h) ==> inside(h.t, t_min, t_max),
    ;
}

/// The hit of `r` on object `i` within the whole of `(t_min, t_max)`, if there is one.
pub open spec fn hit_of<H: Hittable>(
    objects: Seq<H>,
    i: int,
    r: Ray,
    t_min: Scalar,
    t_max: Scalar,
) -> Option<HittableRecord> {
    objects[i].intersection(r, t_min, t_max)
}

/// Whether every object is orderly for the ray and the lower bound.
pub open spec fn all_orderly<H: Hittable>(objects: Seq<H>, r: Ray, t_min: Scalar) -> bool {
    forall|i: int| 0 <= i < objects.len() ==> orderly(#[trigger] objects[i], r, t_min)
}

/// The hit that a scan of `objects` in order ends with: each object is tested only up
/// to the nearest hit found before it, and a hit found replaces the one before.
pub open spec fn nearest<H: Hittable>(
    objects: Seq<H>,
    r: Ray,
    t_min: Scalar,
    t_max: Scalar,
) -> Option<HittableRecord>
    decreases objects.len(),
{
    if objects.len() == 0 {
        None
    } else {
        let earlier = nearest(objects.drop_last(), r, t_min, t_max);
        let bound = match earlier {
            Some(h) => h.t,
            None => t_max,
        };
        match objects.last().intersection(r, t_min, bound) {
            Some(h) => Some(h),
            None => earlier,
        }
    }
}

/// An ordered collection of objects. The order has no bearing on what is nearest; it
/// only fixes the order of the scan.
pub struct Scene<H> {
    pub objects: Vec<H>,
}

impl<H: Hittable> Scene<H> {
    pub fn new(objects: Vec<H>) -> (scene: Scene<H>)
        ensures
            scene.objects == objects,
    {
        Scene { objects }
    }

    /// The nearest hit of `r` within `(t_min, t_max)` over all objects, or none if the
    /// ray meets no object there.
    pub fn closest_hit(&self, r: Ray, t_min: Scalar, t_max: Scalar) -> (rec: Option<
        HittableRecord,
    >)
        ensures
            rec == nearest(self.objects@, r, t_min, t_max),
            rec matches Some(h) ==> inside(h.t, t_min, t_max),
            rec is None <==> forall|i: int|
                0 <= i < self.objects.len() ==> #[trigger] hit_of(self.objects@, i, r, t_min, t_max)
                    is None,
            all_orderly(self.objects@, r, t_min) ==> (rec matches Some(h) ==> is_closest(
                h,
                self.objects@,
                r,
                t_min,
                t_max,
            )),
    {
        let mut best: Option<HittableRecord> = None;
        let mut closest_so_far = t_max;
        let mut i: usize = 0;
        while i < self.objects.len()
            invariant
                0 <= i <= self.objects.len(),
                best == nearest(self.objects@.take(i as int), r, t_min, t_max),
                closest_so_far == match best {
                    Some(h) => h.t,
                    None => t_max,
                },
                best matches Some(h) ==> inside(h.t, t_min, t_max),
            decreases self.objects.len() - i,
        {
            proof {
                assert(self.objects@.take(i + 1).drop_last() == self.objects@.take(i as int));
            }
            match self.objects[i].hit(r, t_min, closest_so_far) {
                Some(h) => {
                    proof {
                        lemma_lt_is_strict(h.t, closest_so_far, t_max);
                    }
                    closest_so_far = h.t;
                    best = Some(h);
                },
                None => {},
            }
            i += 1;
        }
        proof {
            assert(self.objects@.take(i as int) == self.objects@);
            lemma_nearest_none(self.objects@, r, t_min, t_max);
            if all_orderly(self.objects@, r, t_min) {
                lemma_nearest_is_closest(self.objects@, r, t_min, t_max);
            }
        }
        best
    }
}

/// A scan finds nothing exactly when no object is hit within the whole interval.
pub proof fn lemma_nearest_none<H: Hittable>(objects: Seq<H>, r: Ray, t_min: Scalar, t_max: Scalar)
    ensures
        nearest(objects, r, t_min, t_max) is None <==> forall|i: int|
            0 <= i < objects.len() ==> #[trigger] hit_of(objects, i, r, t_min, t_max) is None,
    decreases objects.len(),
{
    if objects.len() > 0 {
        let front = objects.drop_last();
        let n = objects.len() - 1;
        lemma_nearest_none(front, r, t_min, t_max);
        assert forall|i: int| 0 <= i < n implies hit_of(front, i, r, t_min, t_max) == hit_of(
            objects,
            i,
            r,
            t_min,
            t_max,
        ) by {
            assert(front[i] == objects[i]);
        }
        assert(hit_of(objects, n, r, t_min, t_max) == objects.last().intersection(r, t_min, t_max));
        if nearest(objects, r, t_min, t_max) is None {
            assert forall|i: int| 0 <= i < objects.len() implies #[trigger] hit_of(
                objects,
                i,
                r,
                t_min,
                t_max,
            ) is None by {
                if i < n {
                    assert(hit_of(front, i, r, t_min, t_max) is None);
                }
            }
        } else if nearest(front, r, t_min, t_max) is Some {
            let i = choose|i: int|
                0 <= i < front.len() && #[trigger] hit_of(front, i, r, t_min, t_max) is Some;
            assert(hit_of(objects, i, r, t_min, t_max) is Some);
        }
    }
}

/// An object is orderly, for a ray and a lower bound, when its hits lie strictly inside
/// the interval searched and when lowering the upper bound only ever hides a hit: below
/// a bound that still admits the hit, the hit stays what it was, and otherwise nothing
/// is hit. Every sphere is orderly.
pub open spec fn orderly<H: Hittable>(object: H, r: Ray, t_min: Scalar) -> bool {
    &&& forall|t_max: Scalar|
        (#[trigger] object.intersection(r, t_min, t_max)) matches Some(h) ==> inside(
            h.t,
            t_min,
            t_max,
        )
    &&& forall|t_max: Scalar, cut: Scalar|
        cut.le(t_max) ==> #[trigger] object.intersection(r, t_min, cut)
            == match #[trigger] object.intersection(r, t_min, t_max) {
            Some(h) => if h.t.lt(cut) {
                Some(h)
            } else {
                None
            },
            None => None,
        }
}

/// An object that finds its hit by `select_root` is orderly: if, for the ray `r`, the
/// discriminant and the two roots do not depend on the interval searched, the roots come
/// in their natural order, and the record of a hit carries the root as its parameter.
pub proof fn lemma_root_selection_is_orderly<H: Hittable>(
    object: H,
    r: Ray,
    t_min: Scalar,
    discriminant: Scalar,
    near: Scalar,
    far: Scalar,
    record: spec_fn(Scalar) -> HittableRecord,
)
    requires
        !far.lt(near),
        record(near).t == near,
        record(far).t == far,
        forall|t_max: Scalar| #[trigger]
            object.intersection(r, t_min, t_max) == match select_root(
                discriminant,
                near,
                far,
                t_min,
                t_max,
            ) {
                Some(t) => Some(record(t)),
                None => None,
            },
    ensures
        orderly(object, r, t_min),
{
    assert forall|t_max: Scalar, cut: Scalar| cut.le(t_max) implies #[trigger] object.intersection(
        r,
        t_min,
        cut,
    ) == match #[trigger] object.intersection(r, t_min, t_max) {
        Some(h) => if h.t.lt(cut) {
            Some(h)
        } else {
            None
        },
        None => None,
    } by {
        lemma_select_root_is_orderly(discriminant, near, far, t_min, t_max, cut);
    }
}

/// Whether `h` is the hit of object `i` within the whole interval, and the first of the
/// least: no object before `i` is hit at or below `h`, and no object after `i` is hit
/// below it.
pub open spec fn first_least<H: Hittable>(
    h: HittableRecord,
    i: int,
    objects: Seq<H>,
    r: Ray,
    t_min: Scalar,
    t_max: Scalar,
) -> bool {
    &&& 0 <= i < objects.len()
    &&& hit_of(objects, i, r, t_min, t_max) == Some(h)
    &&& forall|j: int|
        0 <= j < objects.len() ==> (#[trigger] hit_of(objects, j, r, t_min, t_max) matches Some(g)
            ==> if j < i {
            h.t.lt(g.t)
        } else {
            h.t.le(g.t)
        })
}

/// Whether `h` is the closest hit of the scene within the whole interval: the hit with
/// the least parameter over all objects, and among equals that of the first object.
pub open spec fn is_closest<H: Hittable>(
    h: HittableRecord,
    objects: Seq<H>,
    r: Ray,
    t_min: Scalar,
    t_max: Scalar,
) -> bool {
    exists|i: int| first_least(h, i, objects, r, t_min, t_max)
}

/// A scene has at most one closest hit.
pub proof fn lemma_closest_is_unique<H: Hittable>(
    h: HittableRecord,
    g: HittableRecord,
    objects: Seq<H>,
    r: Ray,
    t_min: Scalar,
    t_max: Scalar,
)
    requires
        is_closest(h, objects, r, t_min, t_max),
        is_closest(g, objects, r, t_min, t_max),
    ensures
        h == g,
{
    let i = choose|i: int| first_least(h, i, objects, r, t_min, t_max);
    let j = choose|j: int| first_least(g, j, objects, r, t_min, t_max);
    assert(hit_of(objects, i, r, t_min, t_max) == Some(h));
    assert(hit_of(objects, j, r, t_min, t_max) == Some(g));
    if i < j {
        assert(g.t.lt(h.t) && h.t.le(g.t));
    } else if j < i {
        assert(h.t.lt(g.t) && g.t.le(h.t));
    }
}

/// Searching each object only up to the nearest hit so far loses nothing: over orderly
/// objects, the hit that the scan ends with is the closest hit of the scene.
pub proof fn lemma_nearest_is_closest<H: Hittable>(
    objects: Seq<H>,
    r: Ray,
    t_min: Scalar,
    t_max: Scalar,
)
    requires
        all_orderly(objects, r, t_min),
    ensures
        nearest(objects, r, t_min, t_max) matches Some(h) ==> is_closest(
            h,
            objects,
            r,
            t_min,
            t_max,
        ),
    decreases objects.len(),
{
    if objects.len() > 0 {
        let front = objects.drop_last();
        let last = objects.last();
        let n = objects.len() - 1;
        assert forall|i: int| 0 <= i < n implies front[i] == objects[i] && hit_of(
            front,
            i,
            r,
            t_min,
            t_max,
        ) == hit_of(objects, i, r, t_min, t_max) by {
            assert(front[i] == objects[i]);
        }
        assert(last == objects[n]);
        assert(orderly(last, r, t_min));
        assert(all_orderly(front, r, t_min)) by {
            assert forall|i: int| 0 <= i < front.len() implies orderly(
                #[trigger] front[i],
                r,
                t_min,
            ) by {
                assert(front[i] == objects[i]);
            }
        }
        lemma_nearest_is_closest(front, r, t_min, t_max);
        let earlier = nearest(front, r, t_min, t_max);
        let whole = hit_of(objects, n, r, t_min, t_max);
        match earlier {
            None => {
                lemma_nearest_none(front, r, t_min, t_max);
                if let Some(h) = whole {
                    assert forall|j: int| 0 <= j < objects.len() implies (#[trigger] hit_of(
                        objects,
                        j,
                        r,
                        t_min,
                        t_max,
                    ) matches Some(g) ==> if j < n {
                        h.t.lt(g.t)
                    } else {
                        h.t.le(g.t)
                    }) by {
                        if j < n {
                            assert(hit_of(front, j, r, t_min, t_max) is None);
                        }
                    }
                    assert(first_least(h, n, objects, r, t_min, t_max));
                }
            },
            Some(found) => {
                let i0 = choose|i: int| first_least(found, i, front, r, t_min, t_max);
                assert(hit_of(objects, i0, r, t_min, t_max) == Some(found));
                assert(orderly(objects[i0], r, t_min));
                assert(inside(found.t, t_min, t_max));
                assert(found.t.le(t_max));
                let tight = last.intersection(r, t_min, found.t);
                match tight {
                    Some(h) => {
                        assert(whole == Some(h));
                        assert(h.t.lt(found.t));
                        assert forall|j: int| 0 <= j < objects.len() implies (#[trigger] hit_of(
                            objects,
                            j,
                            r,
                            t_min,
                            t_max,
                        ) matches Some(g) ==> if j < n {
                            h.t.lt(g.t)
                        } else {
                            h.t.le(g.t)
                        }) by {
                            if j < n {
                                if let Some(g) = hit_of(front, j, r, t_min, t_max) {
                                    lemma_lt_is_strict(h.t, found.t, g.t);
                                }
                            }
                        }
                        assert(first_least(h, n, objects, r, t_min, t_max));
                    },
                    None => {
                        assert forall|j: int| 0 <= j < objects.len() implies (#[trigger] hit_of(
                            objects,
                            j,
                            r,
                            t_min,
                            t_max,
                        ) matches Some(g) ==> if j < i0 {
                            found.t.lt(g.t)
                        } else {
                            found.t.le(g.t)
                        }) by {
                            if j < n {
                                assert(hit_of(front, j, r, t_min, t_max) == hit_of(
                                    objects,
                                    j,
                                    r,
                                    t_min,
                                    t_max,
                                ));
                            } else {
                                if let Some(g) = whole {
                                    assert(inside(g.t, t_min, t_max));
                                    lemma_lt_is_total(found.t, g.t);
                                }
                            }
                        }
                        assert(first_least(found, i0, objects, r, t_min, t_max));
                    },
                }
            },
        }
    }
}

/// Over orderly objects, the closest hit of the scene is what the scan ends with.
pub proof fn lemma_closest_is_nearest<H: Hittable>(
    h: HittableRecord,
    objects: Seq<H>,
    r: Ray,
    t_min: Scalar,
    t_max: Scalar,
)
    requires
        all_orderly(objects, r, t_min),
        is_closest(h, objects, r, t_min, t_max),
    ensures
        nearest(objects, r, t_min, t_max) == Some(h),
{
    let i = choose|i: int| first_least(h, i, objects, r, t_min, t_max);
    assert(hit_of(objects, i, r, t_min, t_max) is Some);
    lemma_nearest_none(objects, r, t_min, t_max);
    lemma_nearest_is_closest(objects, r, t_min, t_max);
    lemma_closest_is_unique(h, nearest(objects, r, t_min, t_max)->0, objects, r, t_min, t_max);
}

/// A scene without objects is never hit.
pub proof fn lemma_empty_scene_is_never_hit<H: Hittable>(
    objects: Seq<H>,
    r: Ray,
    t_min: Scalar,
    t_max: Scalar,
)
    requires
        objects.len() == 0,
    ensures
        nearest(objects, r, t_min, t_max) is None,
{
}

} // verus!
