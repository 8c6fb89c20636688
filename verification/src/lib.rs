//! A Monte-Carlo ray tracer over fixed-point arithmetic.
//!
//! Every coordinate, color channel and ray parameter is a real number
//! represented as a signed 64-bit integer scaled by `fixed::SCALE`; all
//! geometry, shading and quantization is carried out exactly on those
//! integers, so each routine carries a contract that pins its result down.
pub mod camera;
pub mod color;
pub mod fixed;
pub mod hittable;
pub mod integrator;
pub mod material;
pub mod ray;
pub mod render;
pub mod utils;
pub mod vec3;
pub mod volumes;

pub use fixed::SCALE;
