//! The decisions of a path tracer for scenes of spheres.
//!
//! A renderer of this kind spends its time on floating-point arithmetic:
//! vectors, square roots, random directions. That arithmetic is not here.
//! Here is what the renderer decides on its results: which root of a
//! sphere's quadratic is the hit, which way the recorded normal points,
//! which surface of the scene a ray strikes first, when a path of bounces
//! ends and what it is then worth, how a colour becomes three bytes, how the
//! pixels are numbered and laid into the image. The numbers come in as
//! `scalar::Scalar`, by their encoding; they are compared, negated and cut
//! down to bytes, and nothing else.

pub mod canvas;
pub mod hittable;
pub mod hittable_list;
pub mod ray;
pub mod render;
pub mod scalar;
pub mod sphere;
pub mod vector;
