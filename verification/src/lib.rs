//! The decision logic of a two-variable linear-programming solver that works
//! by the graphical method: enumerate the corner candidates, keep the feasible
//! ones, pick the optimum, and order the feasible region for drawing.
//!
//! All coordinate arithmetic is done by the caller; this crate receives what
//! that arithmetic decided (which constraint a point satisfies, order keys of
//! objective values and angles) and makes every choice of the method from it.

pub mod types;
pub mod feasibility;
pub mod intersections;
pub mod optimizer;
pub mod parser;
pub mod solver;
pub mod laws;
