//! A stochastic path tracer over fixed-point arithmetic: spheres with
//! diffuse, metal and glass materials, a thin-lens camera, a recursive
//! radiance integrator, and a per-pixel task scheduler for parallel
//! rendering.

pub mod fx;
pub mod rng;
pub mod vec3;
pub mod ray;
pub mod hittable;
pub mod material;
pub mod sphere;
pub mod hittable_list;
pub mod camera;
pub mod color;
pub mod tracer;
pub mod sched;
pub mod laws;
