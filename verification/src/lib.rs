//! A verified Monte Carlo ray tracer over saturating fixed-point arithmetic.
//!
//! Spheres with diffuse, metal and dielectric materials are rendered by
//! stochastic path tracing: camera rays are traced through material bounces
//! and averaged into pixel colors, which serialize to a plain-text
//! pixel-grid image.  All real-valued quantities are fixed-point `i64`
//! values (see `fixed`), so every stage of the pipeline carries an exact,
//! machine-checked contract.

pub mod camera;
pub mod fixed;
pub mod hitable;
pub mod hitable_list;
pub mod material;
pub mod ppm;
pub mod ray;
pub mod render;
pub mod rng;
pub mod scene;
pub mod sphere;
pub mod vec3;

