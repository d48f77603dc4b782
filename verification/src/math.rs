//! Mathematical primitives of the renderer: vectors and rays.

pub mod vec3d;
pub mod ray;
