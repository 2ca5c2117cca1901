//! A deformable 2D mass-spring lattice ("cloth") advanced by a fixed-timestep
//! damped-Verlet integrator with iterative spring relaxation.
//!
//! All simulation state is kept in plain arrays of particles and springs, and
//! every quantity is a saturating fixed-point scalar, so the whole integrator
//! is deterministic, total, and verified: each pass has an exact functional
//! model, and the public operations state precisely how they transform it.

pub mod fixed;
pub mod node;
pub mod params;
pub mod physics;
pub mod sim;
pub mod laws;
