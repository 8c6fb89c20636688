//! The geometric primitives and the scene that aggregates them.
pub mod cube;
pub mod cylinder;
pub mod cylinder_t;
pub mod hittable_list;
pub mod plane;
pub mod sphere;
pub mod subplane_d;
pub mod subplane_s;
