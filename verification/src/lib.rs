//! A small path tracer: spheres of diffuse, metallic and glass materials,
//! rendered by recursive stochastic ray casting onto a flat pixel image.
//!
//! All geometry and radiometry is carried out in a fixed-point scalar type,
//! so that every arithmetic step has an exact, machine-checked meaning.

pub mod camera;
pub mod color;
pub mod fixed;
pub mod hittable;
pub mod hittables;
pub mod interval;
pub mod material;
pub mod ray;
pub mod sphere;
pub mod utils;
pub mod vec3;
