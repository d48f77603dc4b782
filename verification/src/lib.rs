//! A small ray-traced still-image renderer over fixed-point arithmetic.
//!
//! Geometry and colors are 3-component vectors whose coordinates are
//! signed 64-bit integers in units of `1 / SCALE` of a world unit.
//! Every operation of the pipeline — vector algebra, ray construction,
//! sphere intersection, scene aggregation and the camera's render loop —
//! is specified exactly over this integer model and verified.

pub mod num;
pub mod math;
pub mod objects;
pub mod render;
