//! A small recursive ray tracer working in fixed-point arithmetic.
//!
//! Geometry is carried in signed 64-bit fixed-point coordinates with
//! `math::SCALE` units to one: a vector whose stored components are
//! `(0, 0, SCALE)` represents the real vector `(0, 0, 1)`.  Every
//! operation of the engine (sphere intersection, nearest-hit search,
//! shadow testing, recursive specular shading) is exact integer
//! arithmetic and is specified and verified down to the rounding of
//! each division and square root.

pub mod config;
pub mod image;
pub mod math;
pub mod raytracer;
