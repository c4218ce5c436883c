//! A Monte-Carlo path tracer over spheres, in fixed-point arithmetic.
//!
//! Scalars are integers counting millionths of a world unit (`fixed::SCALE` per unit);
//! colour channels count millionths of full intensity. Rays are cast against a list of
//! spheres (`objects`), scattered by diffuse, metal and glass materials (`material`),
//! followed from bounce to bounce until they escape to the sky or are absorbed (`ray`),
//! and averaged per pixel into an 8-bit RGB image (`render`). Every random choice is drawn
//! from a random stream that the caller hands in.
use vstd::prelude::*;

pub mod fixed;
pub mod vec3;
pub mod random;
pub mod ray;
pub mod material;
pub mod hittable;
pub mod objects;
pub mod camera;
pub mod render;
pub mod color;

verus! {

} // verus!
