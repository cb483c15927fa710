//! What a relation has to offer to be synthesized.

use crate::error::SynthesisError;
use crate::system::{ConstraintSystem, SystemView};
use vstd::prelude::*;

verus! {

/// A relation that can be written into a constraint system.
///
/// One instance is synthesized once. The same code runs in a setup pass,
/// where the instance need not hold any value, and in a witness pass, where
/// it holds them all; what it allocates and enforces must not depend on the
/// values.
pub trait Circuit: Sized {
    /// The values that the instance holds are field elements.
    spec fn wf(&self) -> bool;

    /// What synthesis into `before` returns.
    spec fn outcome(&self, before: SystemView) -> Result<(), SynthesisError>;

    /// What synthesis into `before` leaves behind.
    spec fn synthesized(&self, before: SystemView) -> SystemView;

    /// Allocates the circuit's variables in `cs` and enforces its
    /// constraints.
    fn synthesize(self, cs: &mut ConstraintSystem) -> (r: Result<(), SynthesisError>)
        requires
            self.wf(),
            old(cs).wf(),
        ensures
            final(cs).wf(),
            r == self.outcome(old(cs)@),
            final(cs)@ == self.synthesized(old(cs)@),
    ;

    /// A setup pass succeeds whatever the instance holds, and be it nothing.
    proof fn lemma_setup_succeeds(&self, s: SystemView)
        requires
            s.mode is Setup,
        ensures
            self.outcome(s) is Ok,
    ;

    /// Synthesis only appends: what the system held before is still there,
    /// in place, and the mode is the same.
    proof fn lemma_synthesis_appends(&self, s: SystemView)
        ensures
            self.synthesized(s).mode == s.mode,
            s.allocations.is_prefix_of(self.synthesized(s).allocations),
            s.values.is_prefix_of(self.synthesized(s).values),
            s.constraints.is_prefix_of(self.synthesized(s).constraints),
    ;

    /// The structure that a circuit adds is the same whatever values its
    /// instances hold, and in whichever mode they are synthesized: two
    /// successful passes that start from the same structure end with the
    /// same structure.
    proof fn lemma_structure_is_fixed(&self, other: &Self, s: SystemView, t: SystemView)
        requires
            s.shape() == t.shape(),
            self.outcome(s) is Ok,
            other.outcome(t) is Ok,
        ensures
            self.synthesized(s).shape() == other.synthesized(t).shape(),
    ;
}

} // verus!
