//! A two-dimensional incompressible fluid solver on a fixed grid with ghost
//! borders, after Stam's stable-fluids method: Gauss-Seidel diffusion,
//! semi-Lagrangian advection, and a Hodge projection that drives the velocity
//! field toward zero divergence.
//!
//! All quantities are saturating fixed-point numbers ([`fixed`]), so every
//! kernel is a total, deterministic function of its inputs and carries an
//! exact contract.

pub mod fixed;
pub mod field;
pub mod boundary;
pub mod gauss;
pub mod diffuse;
pub mod advect;
pub mod project;
pub mod step;
