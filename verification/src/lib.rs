//! Particle life: many particles on a rectangular torus, each of one of a few
//! colour classes, pulled toward and pushed away from their neighbours as an
//! affinity matrix over the classes says.
//!
//! All quantities are fixed-point numbers (see [`fixed`]), so that a run is
//! the same on every machine and every function has an exact contract.
//!
//! - [`fixed`]: fixed-point arithmetic, the integer square root, wrapping on
//!   a circle.
//! - [`force`]: the force law.
//! - [`grid`]: the spatial grid that finds the candidates near a point.
//! - [`matrix`]: the interaction matrix.
//! - [`rng`]: the random source.
//! - [`state`]: the mathematical model of a simulation and of its step.
//! - [`sim`]: the simulation itself.
//! - [`mesh`]: the index buffer of the particle mesh.
pub mod fixed;
pub mod force;
pub mod grid;
pub mod matrix;
pub mod mesh;
pub mod rng;
pub mod sim;
pub mod state;
