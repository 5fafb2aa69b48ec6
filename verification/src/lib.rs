//! A verified ray–scene intersection core: fixed-point vectors and rays,
//! closed-form ray–sphere intersection, nearest-hit aggregation over a
//! scene, and a normal-visualization shader with a sky-gradient fallback.

pub mod fixed;
pub mod hit;
pub mod laws;
pub mod ray;
pub mod shade;
pub mod vec3;
