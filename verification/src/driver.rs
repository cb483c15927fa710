//! The two passes that a proving backend runs over a circuit, and what it
//! needs from both.

use crate::circuit::Circuit;
use crate::error::SynthesisError;
use crate::system::{ConstraintSystem, Mode, SystemView};
use vstd::prelude::*;

verus! {

/// The setup pass: synthesizes `circuit` for its structure alone. The values
/// that the instance holds, if any, are not read.
pub fn synthesize_setup<C: Circuit>(circuit: C) -> (r: ConstraintSystem)
    requires
        circuit.wf(),
    ensures
        r.wf(),
        r@ == circuit.synthesized(SystemView::empty(Mode::Setup)),
{
    let mut cs = ConstraintSystem::new(Mode::Setup);
    let _ = circuit.synthesize(&mut cs);
    cs
}

/// The witness pass: synthesizes `circuit` with its values. It fails as the
/// circuit's synthesis fails, and then hands back no system.
pub fn synthesize_witness<C: Circuit>(circuit: C) -> (r: Result<ConstraintSystem, SynthesisError>)
    requires
        circuit.wf(),
    ensures
        match circuit.outcome(SystemView::empty(Mode::Witness)) {
            Ok(_) => r matches Ok(cs) && cs.wf() && cs@ == circuit.synthesized(
                SystemView::empty(Mode::Witness),
            ),
            Err(e) => r == Err::<ConstraintSystem, SynthesisError>(e),
        },
{
    let mut cs = ConstraintSystem::new(Mode::Witness);
    match circuit.synthesize(&mut cs) {
        Ok(_) => Ok(cs),
        Err(e) => Err(e),
    }
}

/// What a backend replays: the witness pass where the circuit holds its
/// values, and the setup pass where it does not.
pub fn synthesize<C: Circuit + Copy>(circuit: C) -> (r: ConstraintSystem)
    requires
        circuit.wf(),
    ensures
        r.wf(),
        r@ == circuit.synthesized(
            SystemView::empty(
                if circuit.outcome(SystemView::empty(Mode::Witness)) is Ok {
                    Mode::Witness
                } else {
                    Mode::Setup
                },
            ),
        ),
{
    match synthesize_witness(circuit) {
        Ok(cs) => cs,
        Err(_) => synthesize_setup(circuit),
    }
}

/// The setup pass of one instance and a successful witness pass of any other
/// instance of the same circuit record the same structure: what was set up
/// from the one fits what is proved with the other.
pub proof fn lemma_passes_agree<C: Circuit>(blank: C, full: C)
    requires
        full.outcome(SystemView::empty(Mode::Witness)) is Ok,
    ensures
        blank.synthesized(SystemView::empty(Mode::Setup)).shape() == full.synthesized(
            SystemView::empty(Mode::Witness),
        ).shape(),
{
    blank.lemma_setup_succeeds(SystemView::empty(Mode::Setup));
    blank.lemma_structure_is_fixed(
        &full,
        SystemView::empty(Mode::Setup),
        SystemView::empty(Mode::Witness),
    );
}

} // verus!
