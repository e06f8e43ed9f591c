//! A Monte Carlo path tracer over decimal fixed-point arithmetic.
//!
//! Every scalar quantity (coordinate, color channel, ray parameter) is an
//! `i64` count of millionths of a world unit, so that geometry, materials and
//! the radiance integrator are exact integer computations with verified
//! contracts.  Randomness comes from seeded generators behind trusted
//! wrappers; the parallel pixel loop runs behind a trusted wrapper as well.

pub mod fixed;
pub mod rng;
pub mod vec3;
pub mod ray;
pub mod materials;
pub mod objects;
pub mod camera;
pub mod render;
