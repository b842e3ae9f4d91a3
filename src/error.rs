use vstd::prelude::*;

verus! {

/// Why a quadrature or ODE call was refused or gave up.
#[derive(Clone, Copy, Debug, PartialEq, Eq, Structural)]
pub enum NumError {
    /// A non-positive step count, a non-positive tolerance, or a step count
    /// that the rule cannot use (an odd count for Simpson's rule).
    InvalidArgument,
    /// Adaptive refinement reached its maximum depth without meeting the
    /// tolerance.
    ConvergenceFailure,
    /// The caller's function returned a value that is not finite.
    NonFinite,
}

} // verus!
