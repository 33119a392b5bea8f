//! An iterative numerical solver framework: root-finding and scalar
//! minimization algorithms sharing one convergence-tracking engine, plus a
//! polynomial root solver (closed forms for low degrees, Halley iteration
//! with recursive deflation and Aberth-Ehrlich simultaneous iteration for
//! higher degrees).
//!
//! All numerics run on the crate's own saturating fixed-point scalars
//! ([`fixed::Real`] and [`complex::Complex`]), so every arithmetic step has
//! an exact integer-level specification.

pub mod complex;
pub mod fixed;
pub mod odr;
pub mod optimize;
