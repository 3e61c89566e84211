//! Sequential Minimal Optimization for support vector machines.
//!
//! The solver works on an exact fixed-point representation of the reals, so
//! that the feasibility invariants of the dual quadratic program (box
//! constraints and the linear equality constraint) can be stated and proved
//! exactly. Conversion from and to machine floating point belongs to the
//! caller.

pub mod classification;
pub mod fixed;
pub mod kernel;
pub mod laws;
pub mod solver;
pub mod sums;
