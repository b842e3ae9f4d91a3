//! Numerical quadrature and ODE stepping: the exact, float-free part.
//!
//! The fixed-step rules are given as integer node weights with a rational
//! scale, the adaptive rule as a depth-bounded subdivision planner over
//! dyadic panels, and the ODE solvers as step plans with a two-slot history
//! window. Evaluating the caller's function in floating point is left to the
//! caller.
pub mod error;
pub mod integrate;
pub mod adaptive;
pub mod diff_eq_solver;
