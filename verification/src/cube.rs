//! The relation `x^3 + x + 5 = out`, flattened into rank-1 constraints.
//!
//! A rank-1 constraint multiplies two linear combinations, so the cube takes
//! two constraints and two temporaries:
//!
//! ```text
//! x * x               = tmp_1
//! tmp_1 * x           = x_cubed
//! (x_cubed + x + 5) * 1 = out
//! ```
//!
//! The sum and the constant cost no constraint of their own: they are folded
//! into the left side of the last one.

use crate::circuit::Circuit;
use crate::error::SynthesisError;
use crate::field::{
    decimal_value, is_decimal, lemma_modulus_positive, modulus, Scalar,
};
use crate::lc::{
    evaluate, lemma_evaluate_one, lemma_weighted_sum_push, lemma_with_term_fresh,
    LinearCombination,
};
use crate::system::{
    holds_under, lemma_empty_system, lemma_holds_extends, lemma_public_values_agree,
    lemma_public_values_len, option_residue, public_values, Allocation, ConstraintSystem,
    ConstraintView, Mode, SystemView,
};
use crate::variable::{Variable, Visibility};
use vstd::arithmetic::div_mod::{
    lemma_add_mod_noop_right, lemma_mod_twice, lemma_mul_mod_noop_left, lemma_small_mod,
};
use vstd::prelude::*;

verus! {

/// The value of `x^3 + x + 5` in the field.
pub open spec fn cube_output(x: nat) -> nat {
    (x * x * x + x + 5) % modulus()
}

/// Computing the polynomial step by step in the field gives the same as
/// reducing once at the end.
pub proof fn lemma_cube_steps(x: nat)
    ensures
        ((x * x) % modulus() * x) % modulus() == (x * x * x) % modulus(),
        (((x * x * x) % modulus() + x) % modulus() + 5) % modulus() == cube_output(x),
{
    lemma_modulus_positive();
    let m = modulus() as int;
    let cube = (x * x * x) as int;
    lemma_mul_mod_noop_left((x * x) as int, x as int, m);
    lemma_add_mod_noop_right(5int, cube % m + x, m);
    lemma_add_mod_noop_right(5int + x, cube, m);
}

/// Knowledge of a private `x` whose image under `x^3 + x + 5` is public.
///
/// For a setup pass `x` may be absent; a witness pass needs it.
#[derive(Clone, Copy, Debug)]
pub struct CubeDemo {
    pub x: Option<Scalar>,
}

impl CubeDemo {
    /// The four allocations of the circuit, in order. Only the result is
    /// public.
    pub open spec fn slots() -> Seq<Allocation> {
        seq![
            Allocation { label: "x", visibility: Visibility::Private },
            Allocation { label: "tmp_1", visibility: Visibility::Private },
            Allocation { label: "x_cubed", visibility: Visibility::Private },
            Allocation { label: "out", visibility: Visibility::Public },
        ]
    }

    /// The values of the four allocations when the input is `x`.
    pub open spec fn witness(x: nat) -> Seq<nat> {
        seq![x, (x * x) % modulus(), (x * x * x) % modulus(), cube_output(x)]
    }

    /// The three constraints of the circuit when `x` is the variable with
    /// index `n`.
    pub open spec fn constraints(n: nat) -> Seq<ConstraintView> {
        let x = Variable { index: n as usize, visibility: Visibility::Private };
        let tmp_1 = Variable { index: (n + 1) as usize, visibility: Visibility::Private };
        let x_cubed = Variable { index: (n + 2) as usize, visibility: Visibility::Private };
        let out = Variable { index: (n + 3) as usize, visibility: Visibility::Public };
        seq![
            ConstraintView {
                label: "tmp_1",
                a: seq![(x, 1nat)],
                b: seq![(x, 1nat)],
                c: seq![(tmp_1, 1nat)],
            },
            ConstraintView {
                label: "x_cubed",
                a: seq![(tmp_1, 1nat)],
                b: seq![(x, 1nat)],
                c: seq![(x_cubed, 1nat)],
            },
            ConstraintView {
                label: "out",
                a: seq![(x_cubed, 1nat), (x, 1nat), (Variable::spec_one(), 5nat)],
                b: seq![(Variable::spec_one(), 1nat)],
                c: seq![(out, 1nat)],
            },
        ]
    }
}

/// The field element five, read from its numeral.
fn five() -> (r: Scalar)
    ensures
        r.wf(),
        r@ == 5,
{
    proof {
        reveal_strlit("5");
        assert(is_decimal("5"@));
        reveal_with_fuel(decimal_value, 2);
        assert("5"@.drop_last() =~= Seq::<char>::empty());
        assert(decimal_value("5"@) == 5);
        lemma_modulus_positive();
        lemma_small_mod(5, modulus());
    }
    Scalar::from_str("5").unwrap()
}

impl Circuit for CubeDemo {
    open spec fn wf(&self) -> bool {
        self.x matches Some(v) ==> v.wf()
    }

    /// Synthesis fails exactly in a witness pass without `x`.
    open spec fn outcome(&self, before: SystemView) -> Result<(), SynthesisError> {
        if before.takes(option_residue(self.x)) {
            Ok(())
        } else {
            Err(SynthesisError::AssignmentMissing)
        }
    }

    /// A failed synthesis leaves the system as it was. A successful one
    /// appends the four allocations, in a witness pass with their values,
    /// and the three constraints.
    open spec fn synthesized(&self, before: SystemView) -> SystemView {
        if self.outcome(before) is Ok {
            SystemView {
                mode: before.mode,
                allocations: before.allocations + Self::slots(),
                values: if before.mode is Witness {
                    before.values + Self::witness(self.x->0@)
                } else {
                    before.values
                },
                constraints: before.constraints + Self::constraints(before.allocations.len()),
            }
        } else {
            before
        }
    }

    fn synthesize(self, cs: &mut ConstraintSystem) -> (r: Result<(), SynthesisError>) {
        let ghost before = cs@;
        let ghost none = Seq::<(Variable, nat)>::empty();
        let x_val = self.x;
        let x = match cs.allocate_private("x", x_val) {
            Ok(v) => v,
            Err(e) => {
                return Err(e);
            },
        };

        // x * x = tmp_1
        let tmp_1_val = match x_val {
            Some(e) => Some(e.square()),
            None => None,
        };
        let tmp_1 = match cs.allocate_private("tmp_1", tmp_1_val) {
            Ok(v) => v,
            Err(e) => {
                return Err(e);
            },
        };
        let a = LinearCombination::zero().add_variable(x);
        let b = LinearCombination::zero().add_variable(x);
        let c = LinearCombination::zero().add_variable(tmp_1);
        proof {
            lemma_with_term_fresh(none, x, 1);
            lemma_with_term_fresh(none, tmp_1, 1);
            assert(a@ =~= seq![(x, 1nat)]);
            assert(c@ =~= seq![(tmp_1, 1nat)]);
        }
        cs.enforce("tmp_1", a, b, c);

        // tmp_1 * x = x_cubed
        let x_cubed_val = match (tmp_1_val, x_val) {
            (Some(e), Some(f)) => Some(e.mul(f)),
            _ => None,
        };
        let x_cubed = match cs.allocate_private("x_cubed", x_cubed_val) {
            Ok(v) => v,
            Err(e) => {
                return Err(e);
            },
        };
        let a = LinearCombination::zero().add_variable(tmp_1);
        let b = LinearCombination::zero().add_variable(x);
        let c = LinearCombination::zero().add_variable(x_cubed);
        proof {
            lemma_with_term_fresh(none, x_cubed, 1);
            assert(a@ =~= seq![(tmp_1, 1nat)]);
            assert(b@ =~= seq![(x, 1nat)]);
            assert(c@ =~= seq![(x_cubed, 1nat)]);
        }
        cs.enforce("x_cubed", a, b, c);

        // (x_cubed + x + 5) * 1 = out
        let out_val = match (x_cubed_val, x_val) {
            (Some(e), Some(f)) => Some(e.add(f).add(five())),
            _ => None,
        };
        let out = match cs.allocate_public("out", out_val) {
            Ok(v) => v,
            Err(e) => {
                return Err(e);
            },
        };
        let one = Variable::one();
        let a = LinearCombination::zero().add_variable(x_cubed).add_variable(x).add_term(
            five(),
            one,
        );
        let b = LinearCombination::zero().add_variable(one);
        let c = LinearCombination::zero().add_variable(out);
        proof {
            lemma_with_term_fresh(none, one, 1);
            lemma_with_term_fresh(none, out, 1);
            lemma_with_term_fresh(seq![(x_cubed, 1nat)], x, 1);
            lemma_with_term_fresh(seq![(x_cubed, 1nat), (x, 1nat)], one, 5);
            assert(a@ =~= seq![(x_cubed, 1nat), (x, 1nat), (one, 5nat)]);
            assert(b@ =~= seq![(one, 1nat)]);
            assert(c@ =~= seq![(out, 1nat)]);
        }
        cs.enforce("out", a, b, c);

        proof {
            let after = self.synthesized(before);
            if before.mode is Witness {
                lemma_cube_steps(x_val->0@);
            }
            assert(after.allocations =~= cs@.allocations);
            assert(after.values =~= cs@.values);
            assert(after.constraints =~= cs@.constraints);
        }
        Ok(())
    }

    proof fn lemma_setup_succeeds(&self, s: SystemView) {
    }

    proof fn lemma_synthesis_appends(&self, s: SystemView) {
    }

    proof fn lemma_structure_is_fixed(&self, other: &Self, s: SystemView, t: SystemView) {
    }
}

/// What the three constraints say of an assignment: the second variable is
/// the square of the first, the third is the second times the first, and the
/// fourth is the third plus the first plus five, all in the field.
pub open spec fn chained(w: Seq<nat>, n: nat) -> bool {
    &&& w[n as int + 1] == (w[n as int] * w[n as int]) % modulus()
    &&& w[n as int + 2] == (w[n as int + 1] * w[n as int]) % modulus()
    &&& w[n as int + 3] == (w[n as int + 2] + w[n as int] + 5) % modulus()
}

/// An assignment makes the circuit's constraints true exactly when its
/// values are chained as the flattening intends.
pub proof fn lemma_constraints_mean(w: Seq<nat>, n: nat)
    requires
        1 <= n,
        n + 3 < w.len() <= usize::MAX,
        w[0] == 1,
        forall|i: int| 0 <= i < w.len() ==> #[trigger] w[i] < modulus(),
    ensures
        chained(w, n) <==> {
            &&& holds_under(CubeDemo::constraints(n)[0], w)
            &&& holds_under(CubeDemo::constraints(n)[1], w)
            &&& holds_under(CubeDemo::constraints(n)[2], w)
        },
{
    let m = modulus();
    let x = Variable { index: n as usize, visibility: Visibility::Private };
    let tmp_1 = Variable { index: (n + 1) as usize, visibility: Visibility::Private };
    let x_cubed = Variable { index: (n + 2) as usize, visibility: Visibility::Private };
    let out = Variable { index: (n + 3) as usize, visibility: Visibility::Public };
    let one = Variable::spec_one();
    let none = Seq::<(Variable, nat)>::empty();
    lemma_evaluate_one(x, 1, w);
    lemma_evaluate_one(tmp_1, 1, w);
    lemma_evaluate_one(x_cubed, 1, w);
    lemma_evaluate_one(out, 1, w);
    lemma_evaluate_one(one, 1, w);
    lemma_small_mod(w[n as int], m);
    lemma_small_mod(w[n as int + 1], m);
    lemma_small_mod(w[n as int + 2], m);
    lemma_small_mod(w[n as int + 3], m);
    lemma_small_mod(1, m);
    let sum = seq![(x_cubed, 1nat), (x, 1nat), (one, 5nat)];
    assert(evaluate(sum, w) == (w[n as int + 2] + w[n as int] + 5) % m) by {
        assert(sum =~= none.push((x_cubed, 1nat)).push((x, 1nat)).push((one, 5nat)));
        lemma_weighted_sum_push(none, (x_cubed, 1nat), w);
        lemma_weighted_sum_push(none.push((x_cubed, 1nat)), (x, 1nat), w);
        lemma_weighted_sum_push(none.push((x_cubed, 1nat)).push((x, 1nat)), (one, 5nat), w);
    }
    let left = evaluate(sum, w);
    assert((left * 1) % m == left) by {
        lemma_mod_twice((w[n as int + 2] + w[n as int] + 5) as int, m as int);
    }
}

/// A chained assignment ends in the value of the polynomial at its start.
pub proof fn lemma_chain_computes(w: Seq<nat>, n: nat)
    requires
        chained(w, n),
    ensures
        w[n as int + 3] == cube_output(w[n as int]),
{
    let x = w[n as int];
    lemma_modulus_positive();
    lemma_mul_mod_noop_left((x * x) as int, x as int, modulus() as int);
    lemma_add_mod_noop_right(x as int + 5, (x * x * x) as int, modulus() as int);
}

/// What a witness pass does to a system: it stays well formed, the value of
/// the polynomial at `x` becomes the last public input, and the witness
/// satisfies the constraints exactly when it did before. The circuit
/// computes its own intermediate values, so it adds nothing that could fail.
pub proof fn lemma_witness_pass(circuit: CubeDemo, before: SystemView)
    requires
        circuit.wf(),
        circuit.x is Some,
        before.wf(),
        before.mode is Witness,
        before.allocations.len() + 4 <= usize::MAX,
    ensures
        circuit.synthesized(before).wf(),
        circuit.synthesized(before).public_inputs() == before.public_inputs().push(
            cube_output(circuit.x->0@),
        ),
        circuit.synthesized(before).satisfied() <==> before.satisfied(),
{
    let after = circuit.synthesized(before);
    let n = before.allocations.len();
    let k = before.constraints.len() as int;
    let x = circuit.x->0@;
    let w = CubeDemo::witness(x);
    lemma_modulus_positive();
    lemma_cube_steps(x);
    assert(after.values == before.values + w);
    assert forall|i: int| 0 <= i < after.values.len() implies #[trigger] after.values[i]
        < modulus() by {
        if i < n {
            assert(after.values[i] == before.values[i]);
        }
    }
    assert forall|i: int| 0 <= i < k implies {
        &&& after.admits((#[trigger] after.constraints[i]).a)
        &&& after.admits(after.constraints[i].b)
        &&& after.admits(after.constraints[i].c)
        &&& after.holds(after.constraints[i]) == before.holds(before.constraints[i])
    } by {
        let old_c = before.constraints[i];
        assert(before.admits(old_c.a) && before.admits(old_c.b) && before.admits(old_c.c));
        lemma_holds_extends(before, old_c, w);
    }
    lemma_constraints_mean(after.values, n);
    assert(chained(after.values, n)) by {
        lemma_add_mod_noop_right(x as int + 5, (x * x * x) as int, modulus() as int);
    }
    assert(after.constraints[k] == CubeDemo::constraints(n)[0]);
    assert(after.constraints[k + 1] == CubeDemo::constraints(n)[1]);
    assert(after.constraints[k + 2] == CubeDemo::constraints(n)[2]);
    if before.satisfied() {
        assert forall|i: int| 0 <= i < after.constraints.len() implies after.holds(
            #[trigger] after.constraints[i],
        ) by {
            if i < k {
                assert(before.holds(before.constraints[i]));
            }
        }
    }
    if after.satisfied() {
        assert forall|i: int| 0 <= i < k implies before.holds(#[trigger] before.constraints[i]) by {
            assert(after.holds(after.constraints[i]));
        }
    }
    lemma_public_values_agree(after.allocations, after.values, before.allocations, before.values, n);
    reveal_with_fuel(public_values, 5);
    assert(after.public_inputs() =~= before.public_inputs().push(cube_output(x)));
}

/// Whatever witness a prover brings: in a system that holds the circuit's
/// three constraints and is satisfied, the public variable of the circuit is
/// the value of the polynomial at its private one.
pub proof fn lemma_flattening_is_sound(t: SystemView, n: nat, k: int)
    requires
        t.wf(),
        t.satisfied(),
        1 <= n,
        n + 3 < t.allocations.len(),
        0 <= k,
        k + 3 <= t.constraints.len(),
        t.constraints.subrange(k, k + 3) == CubeDemo::constraints(n),
    ensures
        t.values[n as int + 3] == cube_output(t.values[n as int]),
{
    let part = t.constraints.subrange(k, k + 3);
    assert(part[0] == t.constraints[k]);
    assert(part[1] == t.constraints[k + 1]);
    assert(part[2] == t.constraints[k + 2]);
    assert(t.holds(t.constraints[k]));
    assert(t.holds(t.constraints[k + 1]));
    assert(t.holds(t.constraints[k + 2]));
    lemma_constraints_mean(t.values, n);
    lemma_chain_computes(t.values, n);
}

/// The witness that the circuit computes passes the check against the value
/// of the polynomial, and against nothing else.
pub proof fn lemma_accepts_the_cube(circuit: CubeDemo, inputs: Seq<nat>)
    requires
        circuit.wf(),
        circuit.x is Some,
    ensures
        circuit.synthesized(SystemView::empty(Mode::Witness)).verdict(inputs) == Ok::<
            bool,
            SynthesisError,
        >(true) <==> inputs == seq![cube_output(circuit.x->0@)],
{
    let before = SystemView::empty(Mode::Witness);
    lemma_empty_system(Mode::Witness);
    lemma_witness_pass(circuit, before);
    let after = circuit.synthesized(before);
    lemma_public_values_len(after.allocations, after.values, after.allocations.len());
    assert(after.public_inputs() =~= seq![cube_output(circuit.x->0@)]);
}

} // verus!
