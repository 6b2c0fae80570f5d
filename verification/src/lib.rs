//! A path tracer over fixed-point arithmetic.
//!
//! A [`camera::Camera`] sends rays through the pixels of its image into a
//! scene of [`sphere::Sphere`]s, or of anything else that is
//! [`hittable::Hittable`]. A ray that hits a surface is scattered as the
//! [`material::Material`] of the surface says, and brings back the light
//! of the scattered ray, attenuated; a ray that hits nothing brings back
//! the light of the sky. The image is the text of a plain PPM file.
//!
//! All numbers are [`scalar::Scalar`]s, whose arithmetic is exact integer
//! arithmetic on scaled values. Every function that draws random numbers
//! from a [`sampler::Sampler`] has a counterpart that takes them as
//! arguments and whose result is stated exactly.

pub mod camera;
pub mod error;
pub mod hittable;
pub mod image;
pub mod interval;
pub mod material;
pub mod ray;
pub mod sampler;
pub mod scalar;
pub mod sphere;
pub mod vec3;
pub mod wide;
