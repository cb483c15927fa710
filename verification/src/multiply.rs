//! The relation `a * b = c`, which is a rank-1 constraint as it stands.

use crate::circuit::Circuit;
use crate::error::SynthesisError;
use crate::field::{modulus, Scalar};
use crate::lc::{lemma_evaluate_one, lemma_with_term_fresh, LinearCombination};
use crate::system::{
    holds_under, lemma_empty_system, lemma_holds_extends, lemma_public_values_agree,
    lemma_public_values_len, public_values, Allocation, ConstraintSystem, ConstraintView, Mode,
    SystemView,
};
use vstd::arithmetic::div_mod::lemma_small_mod;
use crate::variable::{Variable, Visibility};
use vstd::prelude::*;

verus! {

/// Knowledge of two private factors `a` and `b` of a public product `c`.
///
/// For a setup pass the three values may be absent; for a witness pass all
/// three are needed.
#[derive(Clone, Copy, Debug)]
pub struct MultiplyDemo {
    pub a: Option<Scalar>,
    pub b: Option<Scalar>,
    pub c: Option<Scalar>,
}

impl MultiplyDemo {
    /// The three allocations of the circuit, in order.
    pub open spec fn slots() -> Seq<Allocation> {
        seq![
            Allocation { label: "a", visibility: Visibility::Private },
            Allocation { label: "b", visibility: Visibility::Private },
            Allocation { label: "c", visibility: Visibility::Public },
        ]
    }

    /// The values of the three allocations, in order.
    pub open spec fn witness(&self) -> Seq<nat> {
        seq![self.a->0@, self.b->0@, self.c->0@]
    }

    /// How many allocations a pass in `mode` makes: all three, unless it is
    /// a witness pass that runs into a missing value.
    pub open spec fn reach(&self, mode: Mode) -> nat {
        if mode is Setup {
            3
        } else if self.a is None {
            0
        } else if self.b is None {
            1
        } else if self.c is None {
            2
        } else {
            3
        }
    }

    /// The one constraint of the circuit, `a * b = c`, when `a` is the
    /// variable with index `n`.
    pub open spec fn constraint(n: nat) -> ConstraintView {
        ConstraintView {
            label: "mult",
            a: seq![(Variable { index: n as usize, visibility: Visibility::Private }, 1nat)],
            b: seq![(Variable { index: (n + 1) as usize, visibility: Visibility::Private }, 1nat)],
            c: seq![(Variable { index: (n + 2) as usize, visibility: Visibility::Public }, 1nat)],
        }
    }
}

impl Circuit for MultiplyDemo {
    open spec fn wf(&self) -> bool {
        &&& self.a matches Some(v) ==> v.wf()
        &&& self.b matches Some(v) ==> v.wf()
        &&& self.c matches Some(v) ==> v.wf()
    }

    /// Synthesis fails exactly in a witness pass with a value missing.
    open spec fn outcome(&self, before: SystemView) -> Result<(), SynthesisError> {
        if self.reach(before.mode) == 3 {
            Ok(())
        } else {
            Err(SynthesisError::AssignmentMissing)
        }
    }

    /// Synthesis appends the allocations up to the first missing value, with
    /// their values in a witness pass, and the constraint once all three
    /// variables are there.
    open spec fn synthesized(&self, before: SystemView) -> SystemView {
        let k = self.reach(before.mode) as int;
        SystemView {
            mode: before.mode,
            allocations: before.allocations + Self::slots().take(k),
            values: if before.mode is Witness {
                before.values + self.witness().take(k)
            } else {
                before.values
            },
            constraints: if k == 3 {
                before.constraints.push(Self::constraint(before.allocations.len()))
            } else {
                before.constraints
            },
        }
    }

    fn synthesize(self, cs: &mut ConstraintSystem) -> (r: Result<(), SynthesisError>) {
        let ghost before = cs@;
        let ghost none = Seq::<(Variable, nat)>::empty();
        let a = match cs.allocate_private("a", self.a) {
            Ok(v) => v,
            Err(e) => {
                proof {
                    let after = self.synthesized(before);
                    assert(after.allocations =~= before.allocations);
                    assert(after.values =~= before.values);
                }
                return Err(e);
            },
        };
        let b = match cs.allocate_private("b", self.b) {
            Ok(v) => v,
            Err(e) => {
                proof {
                    let after = self.synthesized(before);
                    assert(after.allocations =~= cs@.allocations);
                    assert(after.values =~= cs@.values);
                }
                return Err(e);
            },
        };
        let c = match cs.allocate_public("c", self.c) {
            Ok(v) => v,
            Err(e) => {
                proof {
                    let after = self.synthesized(before);
                    assert(after.allocations =~= cs@.allocations);
                    assert(after.values =~= cs@.values);
                }
                return Err(e);
            },
        };
        let lc_a = LinearCombination::zero().add_variable(a);
        let lc_b = LinearCombination::zero().add_variable(b);
        let lc_c = LinearCombination::zero().add_variable(c);
        proof {
            lemma_with_term_fresh(none, a, 1);
            lemma_with_term_fresh(none, b, 1);
            lemma_with_term_fresh(none, c, 1);
            assert(lc_a@ =~= seq![(a, 1nat)]);
            assert(lc_b@ =~= seq![(b, 1nat)]);
            assert(lc_c@ =~= seq![(c, 1nat)]);
        }
        cs.enforce("mult", lc_a, lc_b, lc_c);
        proof {
            let after = self.synthesized(before);
            assert(after.allocations =~= cs@.allocations);
            assert(after.values =~= cs@.values);
            assert(after.constraints =~= cs@.constraints);
        }
        Ok(())
    }

    proof fn lemma_setup_succeeds(&self, s: SystemView) {
    }

    proof fn lemma_synthesis_appends(&self, s: SystemView) {
    }

    proof fn lemma_structure_is_fixed(&self, other: &Self, s: SystemView, t: SystemView) {
    }
}

/// An assignment makes the circuit's constraint true exactly when it gives
/// the third variable the product of the first two.
pub proof fn lemma_constraint_means(w: Seq<nat>, n: nat)
    requires
        n + 2 < w.len() <= usize::MAX,
        forall|i: int| 0 <= i < w.len() ==> #[trigger] w[i] < modulus(),
    ensures
        holds_under(MultiplyDemo::constraint(n), w) <==> w[n as int + 2] == (w[n as int] * w[n as int + 1])
            % modulus(),
{
    let constraint = MultiplyDemo::constraint(n);
    lemma_evaluate_one(constraint.a[0].0, 1, w);
    lemma_evaluate_one(constraint.b[0].0, 1, w);
    lemma_evaluate_one(constraint.c[0].0, 1, w);
    lemma_small_mod(w[n as int], modulus());
    lemma_small_mod(w[n as int + 1], modulus());
    lemma_small_mod(w[n as int + 2], modulus());
}

/// What a witness pass with all three values does to a system: it stays
/// well formed, `c` becomes the last public input, and the witness satisfies
/// the constraints exactly when it did before and `c` is the product of `a`
/// and `b` in the field.
pub proof fn lemma_witness_pass(circuit: MultiplyDemo, before: SystemView)
    requires
        circuit.wf(),
        circuit.a is Some,
        circuit.b is Some,
        circuit.c is Some,
        before.wf(),
        before.mode is Witness,
        before.allocations.len() + 3 <= usize::MAX,
    ensures
        circuit.synthesized(before).wf(),
        circuit.synthesized(before).public_inputs() == before.public_inputs().push(
            circuit.c->0@,
        ),
        circuit.synthesized(before).satisfied() <==> before.satisfied() && circuit.c->0@ == (
        circuit.a->0@ * circuit.b->0@) % modulus(),
{
    let after = circuit.synthesized(before);
    let n = before.allocations.len();
    let added = MultiplyDemo::constraint(n);
    let w = circuit.witness();
    assert(after.values == before.values + w);
    assert(after.constraints == before.constraints.push(added));
    assert forall|i: int| 0 <= i < before.constraints.len() implies {
        &&& after.admits((#[trigger] after.constraints[i]).a)
        &&& after.admits(after.constraints[i].b)
        &&& after.admits(after.constraints[i].c)
        &&& after.holds(after.constraints[i]) == before.holds(before.constraints[i])
    } by {
        let old_c = before.constraints[i];
        assert(before.admits(old_c.a) && before.admits(old_c.b) && before.admits(old_c.c));
        lemma_holds_extends(before, old_c, w);
    }
    lemma_constraint_means(after.values, n);
    assert(after.holds(after.constraints[before.constraints.len() as int]) <==> circuit.c->0@
        == (circuit.a->0@ * circuit.b->0@) % modulus());
    if before.satisfied() && circuit.c->0@ == (circuit.a->0@ * circuit.b->0@) % modulus() {
        assert forall|i: int| 0 <= i < after.constraints.len() implies after.holds(
            #[trigger] after.constraints[i],
        ) by {
            if i < before.constraints.len() {
                assert(before.holds(before.constraints[i]));
            }
        }
    }
    if after.satisfied() {
        assert forall|i: int| 0 <= i < before.constraints.len() implies before.holds(
            #[trigger] before.constraints[i],
        ) by {
            assert(after.holds(after.constraints[i]));
        }
    }
    lemma_public_values_agree(after.allocations, after.values, before.allocations, before.values, n);
    reveal_with_fuel(public_values, 4);
    assert(after.public_inputs() =~= before.public_inputs().push(circuit.c->0@));
}

/// Whatever witness a prover brings: in a system that holds the circuit's
/// constraint and is satisfied, the third of the circuit's variables is the
/// product of the first two.
pub proof fn lemma_flattening_is_sound(t: SystemView, n: nat, k: int)
    requires
        t.wf(),
        t.satisfied(),
        n + 2 < t.allocations.len(),
        0 <= k < t.constraints.len(),
        t.constraints[k] == MultiplyDemo::constraint(n),
    ensures
        t.values[n as int + 2] == (t.values[n as int] * t.values[n as int + 1]) % modulus(),
{
    assert(t.holds(t.constraints[k]));
    lemma_constraint_means(t.values, n);
}

/// A true product passes the check against its public input.
pub proof fn lemma_true_product_accepted(circuit: MultiplyDemo)
    requires
        circuit.wf(),
        circuit.a is Some,
        circuit.b is Some,
        circuit.c is Some,
        circuit.c->0@ == (circuit.a->0@ * circuit.b->0@) % modulus(),
    ensures
        circuit.synthesized(SystemView::empty(Mode::Witness)).verdict(seq![circuit.c->0@]) == Ok::<
            bool,
            SynthesisError,
        >(true),
{
    let before = SystemView::empty(Mode::Witness);
    lemma_empty_system(Mode::Witness);
    lemma_witness_pass(circuit, before);
    let after = circuit.synthesized(before);
    lemma_public_values_len(after.allocations, after.values, after.allocations.len());
    assert(after.public_inputs() =~= seq![circuit.c->0@]);
}

/// A false product passes no check, whatever public inputs are offered.
pub proof fn lemma_false_product_rejected(circuit: MultiplyDemo, inputs: Seq<nat>)
    requires
        circuit.wf(),
        circuit.a is Some,
        circuit.b is Some,
        circuit.c is Some,
        circuit.c->0@ != (circuit.a->0@ * circuit.b->0@) % modulus(),
    ensures
        circuit.synthesized(SystemView::empty(Mode::Witness)).verdict(inputs) != Ok::<
            bool,
            SynthesisError,
        >(true),
{
    lemma_empty_system(Mode::Witness);
    lemma_witness_pass(circuit, SystemView::empty(Mode::Witness));
}

} // verus!
