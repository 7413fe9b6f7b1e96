//! Three-component vectors, used for points, directions and colours alike.
//!
//! A vector is normalised by dividing it by its length, which the numeric kernel
//! computes; `has_direction` says for which lengths that is possible.

use vstd::prelude::*;
use crate::scalar::Scalar;

verus! {

/// A vector of three numbers. As a colour, `x`, `y`, `z` are red, green, blue.
#[derive(Clone, Copy, Debug, PartialEq, Eq, Structural)]
pub struct Vector3 {
    pub x: Scalar,
    pub y: Scalar,
    pub z: Scalar,
}

impl Vector3 {
    pub fn new(x: Scalar, y: Scalar, z: Scalar) -> (v: Vector3)
        ensures
            v == (Vector3 { x, y, z }),
    {
        Vector3 { x, y, z }
    }

    /// The vector with the given component bits.
    pub fn from_bits(x: u32, y: u32, z: u32) -> (v: Vector3)
        ensures
            v.x.bits == x,
            v.y.bits == y,
            v.z.bits == z,
    {
        Vector3 { x: Scalar::from_bits(x), y: Scalar::from_bits(y), z: Scalar::from_bits(z) }
    }
}

/// Whether a vector of the given length can be normalised: the length is a finite
/// number above zero.
pub open spec fn spec_has_direction(length: Scalar) -> bool {
    length.is_positive() && length.is_finite()
}

/// Whether a vector of the given length can be normalised.
#[verifier::when_used_as_spec(spec_has_direction)]
pub fn has_direction(length: Scalar) -> (b: bool)
    ensures
        b == has_direction(length),
{
    length.is_positive() && length.is_finite()
}

} // verus!
