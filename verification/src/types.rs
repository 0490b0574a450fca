//! Shared data types of the solver.

use vstd::prelude::*;

verus! {

/// Comparison operator used in a constraint `a*x + b*y <op> c`.
#[derive(Debug, Clone, Copy, PartialEq, Eq, Structural)]
pub enum Operator {
    /// `<=`
    Le,
    /// `>=`
    Ge,
    /// `=`
    Eq,
}

/// Overall status of a solve attempt.
#[derive(Debug, Clone, Copy, PartialEq, Eq, Structural)]
pub enum SolutionStatus {
    /// Some candidate corner is feasible and the unboundedness probe found no
    /// improvement: the optimum is reported at the best feasible corner.
    Optimal,
    /// No candidate corner (intersection of two boundary lines) satisfies
    /// every constraint.
    Infeasible,
    /// Some candidate corner is feasible, and a probe point far out on a
    /// large circle satisfies every constraint and beats the best feasible
    /// corner: the objective is judged to grow without bound.
    Unbounded,
}

} // verus!
