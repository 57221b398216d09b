//! A stochastic ray-tracing renderer over exact fixed-point arithmetic.
//!
//! Every scalar is an `i128` holding a real value scaled by 2^32, so all of
//! the geometry, shading and sampling below is exact integer arithmetic that
//! the verifier can reason about. Rays are cast per pixel, intersected with
//! spheres, planes and cylinders, and colors are resolved by a depth-bounded
//! recursion over material scattering.

pub mod fixed;
pub mod math;
pub mod ray;
pub mod utils;
pub mod color;
pub mod framebuffer;
pub mod material;
pub mod object;
pub mod camera;
pub mod scene;
