//! The camera: a thin lens in front of an image plane.
//!
//! A camera is set up once, from where it stands (`look_from`), what it looks at
//! (`look_at`), which way is up (`v_up`), its vertical field of view in degrees, the
//! aspect ratio of the image, the aperture of the lens and the distance of the plane in
//! focus. With `theta = vfov * pi / 180`, `half_height = tan(theta / 2)` and
//! `half_width = aspect * half_height`, a numeric kernel works out the axes
//!
//! * `w = (look_from - look_at) / |look_from - look_at|`, backward,
//! * `u = (v_up x w) / |v_up x w|`, to the right,
//! * `v = w x u`, up,
//!
//! and from them the corner `look_from - half_width * focus_dist * u - half_height *
//! focus_dist * v - focus_dist * w` of the plane in focus, its sides `2 * half_width *
//! focus_dist * u` and `2 * half_height * focus_dist * v`, and the lens radius
//! `aperture / 2`. A camera that looks at its own position or straight along `v_up` has
//! no such axes and is turned down.
//!
//! A ray through the point `(s, t)` of the image, both from 0 to 1, starts at a random
//! point of the lens, `origin + u * rd.x + v * rd.y` for a point `rd` of the unit disk
//! scaled by the lens radius, and runs to `lower_left_corner + s * horizontal + t *
//! vertical`. Rays through one point of the image thus meet again only in the plane in
//! focus.

use vstd::prelude::*;
use crate::config::check_camera_basis;
use crate::config::ConfigError;
use crate::ray::Ray;
use crate::sampling::draws_from_disk;
use crate::sampling::random_in_unit_disk;
use crate::sampling::Sampler;
use crate::scalar::Scalar;
use crate::vector::has_direction;
use crate::vector::Vector3;

verus! {

/// What a camera is set up from.
#[derive(Clone, Copy, Debug, PartialEq, Eq, Structural)]
pub struct Stance {
    pub look_from: Vector3,
    pub look_at: Vector3,
    pub v_up: Vector3,
    pub vfov: Scalar,
    pub aspect: Scalar,
    pub aperture: Scalar,
    pub focus_dist: Scalar,
}

/// What a camera works with once it is set up.
#[derive(Clone, Copy, Debug, PartialEq, Eq, Structural)]
pub struct Optics {
    pub origin: Vector3,
    pub lower_left_corner: Vector3,
    pub horizontal: Vector3,
    pub vertical: Vector3,
    pub lens_radius: Scalar,
    pub u: Vector3,
    pub v: Vector3,
    pub w: Vector3,
}

/// What the kernel works out from a stance: the optics, and the lengths of the two
/// vectors that it had to normalise for the axes, `look_from - look_at` and `v_up x w`.
#[derive(Clone, Copy, Debug, PartialEq, Eq, Structural)]
pub struct Survey {
    pub optics: Optics,
    pub backward_length: Scalar,
    pub right_length: Scalar,
}

/// A camera: its optics, with the kernel that aims its rays. It does not change once it
/// is set up.
pub struct Camera<A: Fn(Optics, Scalar, Scalar, Vector3) -> Ray> {
    optics: Optics,
    aim: A,
}

/// Whether the kernel that aims the rays may be called on all optics, image points and
/// lens points.
pub open spec fn aims<A: Fn(Optics, Scalar, Scalar, Vector3) -> Ray>(aim: A) -> bool {
    forall|optics: Optics, s: Scalar, t: Scalar, lens: Vector3|
        call_requires(aim, (optics, s, t, lens))
}

impl<A: Fn(Optics, Scalar, Scalar, Vector3) -> Ray> Camera<A> {
    #[verifier::type_invariant]
    closed spec fn sound(self) -> bool {
        aims(self.aim)
    }

    /// The optics.
    pub closed spec fn spec_optics(&self) -> Optics {
        self.optics
    }

    /// The kernel that aims the rays.
    pub closed spec fn aim(&self) -> A {
        self.aim
    }

    /// Sets up a camera. The kernel `survey` works out the optics for the stance; the
    /// camera is turned down as degenerate unless both vectors that the kernel had to
    /// normalise have a direction.
    pub fn new<B: Fn(Stance) -> Survey>(
        look_from: Vector3,
        look_at: Vector3,
        v_up: Vector3,
        vfov: Scalar,
        aspect: Scalar,
        aperture: Scalar,
        focus_dist: Scalar,
        survey: B,
        aim: A,
    ) -> (camera: Result<Camera<A>, ConfigError>)
        requires
            call_requires(
                survey,
                (Stance { look_from, look_at, v_up, vfov, aspect, aperture, focus_dist },),
            ),
            aims(aim),
        ensures
            exists|found: Survey| #[trigger]
                call_ensures(
                    survey,
                    (Stance { look_from, look_at, v_up, vfov, aspect, aperture, focus_dist },),
                    found,
                ) && match camera {
                    Ok(c) => {
                        &&& has_direction(found.backward_length)
                        &&& has_direction(found.right_length)
                        &&& c.optics() == found.optics
                        &&& c.aim() == aim
                    },
                    Err(e) => {
                        &&& e == ConfigError::DegenerateCamera
                        &&& !(has_direction(found.backward_length) && has_direction(
                            found.right_length,
                        ))
                    },
                },
    {
        let stance = Stance { look_from, look_at, v_up, vfov, aspect, aperture, focus_dist };
        let found = survey(stance);
        match check_camera_basis(found.backward_length, found.right_length) {
            Ok(()) => Ok(Camera { optics: found.optics, aim }),
            Err(e) => Err(e),
        }
    }

    #[verifier::when_used_as_spec(spec_optics)]
    pub fn optics(&self) -> (optics: Optics)
        ensures
            optics == self.optics(),
    {
        self.optics
    }

    /// The ray through the point `(s, t)` of the image, from a point of the lens drawn
    /// from the unit disk.
    pub fn get_ray(&self, s: Scalar, t: Scalar, sampler: &mut Sampler) -> (ray: Ray)
        ensures
            exists|lens: Vector3|
                draws_from_disk(*old(sampler), *final(sampler), lens) && #[trigger] call_ensures(
                    self.aim(),
                    (self.optics(), s, t, lens),
                    ray,
                ),
    {
        proof {
            use_type_invariant(self);
        }
        let lens = random_in_unit_disk(sampler);
        let ray = (self.aim)(self.optics, s, t, lens);
        assert(call_ensures(self.aim(), (self.optics(), s, t, lens), ray));
        ray
    }
}

} // verus!
