//! Rays: a point of origin and a direction.

use vstd::prelude::*;
use crate::vector::Vector3;

verus! {

/// A half-line `origin + t * direction`. The direction need not have unit length.
/// A ray is never changed once made; every bounce makes a new one.
#[derive(Clone, Copy, Debug, PartialEq, Eq, Structural)]
pub struct Ray {
    a: Vector3,
    b: Vector3,
}

impl Ray {
    /// The ray from `a_in` along `b_in`.
    pub closed spec fn spec_new(a_in: Vector3, b_in: Vector3) -> Ray {
        Ray { a: a_in, b: b_in }
    }

    /// Where the ray starts.
    pub closed spec fn spec_origin(self) -> Vector3 {
        self.a
    }

    /// Where the ray points.
    pub closed spec fn spec_direction(self) -> Vector3 {
        self.b
    }

    #[verifier::when_used_as_spec(spec_new)]
    pub fn new(a_in: Vector3, b_in: Vector3) -> (r: Ray)
        ensures
            r == Ray::new(a_in, b_in),
            r.spec_origin() == a_in,
            r.spec_direction() == b_in,
    {
        Ray { a: a_in, b: b_in }
    }

    pub fn origin(&mut self) -> (o: Vector3)
        ensures
            o == old(self).spec_origin(),
            *final(self) == *old(self),
    {
        self.a
    }

    pub fn direction(&mut self) -> (d: Vector3)
        ensures
            d == old(self).spec_direction(),
            *final(self) == *old(self),
    {
        self.b
    }
}

/// A ray is made of its origin and its direction, and of nothing else.
pub proof fn lemma_ray_is_its_parts(r: Ray, a: Vector3, b: Vector3)
    ensures
        Ray::new(a, b).spec_origin() == a,
        Ray::new(a, b).spec_direction() == b,
        r == Ray::new(r.spec_origin(), r.spec_direction()),
{
}

} // verus!
