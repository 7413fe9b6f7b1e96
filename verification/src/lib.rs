//! A recursive Monte Carlo ray tracer for scenes of spheres: the verified part.
//!
//! A picture is made by following rays backward from the eye: each ray is sent into the
//! scene, scattered where it meets a surface, and followed on until it leaves for the
//! sky, is absorbed, or has bounced too often. Many such paths are averaged per pixel.
//!
//! This crate holds every decision of that process, with a contract on each:
//!
//! * `scalar`, `vector`, `ray`: numbers as bit patterns with their order, vectors and
//!   rays of such numbers;
//! * `sphere`: spheres, and which root of the ray-sphere equation is the hit;
//! * `scene`: the nearest hit over all objects of a scene;
//! * `materials`: whether and where a ray goes on from a Lambertian, metal or dielectric
//!   surface;
//! * `sampling`: a seeded random source, uniform numbers, and points of the unit ball
//!   and disk by rejection with a bounded number of draws;
//! * `camera`: setting up a camera, and the rays it sends out through its lens;
//! * `integrator`: the path of one ray, bounded in depth;
//! * `render`: the samples of a pixel, their sum and its development into the pixel, and
//!   the pixels of the image in output order;
//! * `config`, `image`, `ppm`: checked render parameters, the pixel grid, quantisation
//!   of colours, and the image as text.
//!
//! What it leaves out is the arithmetic: dot products, square roots, the roots of the
//! quadratic, reflected and refracted directions, the camera's basis, sums and products
//! of colours. An application supplies these in floating point, as numeric kernels:
//! closures that a sphere, the surfaces of a scene, the camera and the renderer call for
//! the numbers they need, and whose answers they then decide upon.

pub mod scalar;
pub mod vector;
pub mod ray;
pub mod sphere;
pub mod materials;
pub mod scene;
pub mod sampling;
pub mod integrator;
pub mod camera;
pub mod config;
pub mod image;
pub mod ppm;
pub mod render;
