//! A small Monte Carlo path tracer whose light-transport core is verified.
//!
//! All radiometric and geometric quantities are carried in signed fixed-point
//! arithmetic: an `i64` holds the real value multiplied by `fixed::SCALE`.
//! Every executable routine of the core is specified exactly against a
//! mathematical mirror of its fixed-point computation, so the integrator,
//! the material sampling models and the intersection geometry are proved to
//! compute precisely the values their specifications describe.

pub mod fixed;
pub mod material;
pub mod ray;
pub mod renderer;
pub mod scene;
pub mod shape;
pub mod tools;
pub mod vector;
