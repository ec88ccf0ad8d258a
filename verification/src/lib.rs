//! A stable-fluids solver on a fixed two-dimensional grid.
//!
//! The solver is generic over its number type: see [`scalar::Scalar`]. Every
//! stage states which arithmetic produced each cell of its result, and the
//! loops, the indexing and the handling of the border are verified for every
//! scalar type.

pub mod advection;
pub mod diffusion;
pub mod field;
pub mod fluid_simulation;
pub mod formula;
pub mod laws;
pub mod projection;
pub mod rest;
pub mod scalar;

pub use field::Field;
pub use fluid_simulation::FluidSimulation;
pub use scalar::Scalar;
