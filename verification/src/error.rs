//! Ways in which synthesis or checking can fail.

use vstd::prelude::*;

verus! {

/// Why a synthesis pass or a check gave up.
#[derive(Clone, Copy, Debug, PartialEq, Eq, Structural)]
pub enum SynthesisError {
    /// A pass that computes a witness was given no value for a variable.
    AssignmentMissing,
    /// The number of public inputs offered differs from the number of public
    /// variables that the circuit allocates.
    StructuralMismatch,
}

} // verus!
