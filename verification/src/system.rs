//! The constraint system that a circuit is synthesized into: the variable
//! allocator and the constraint enforcer.

use crate::error::SynthesisError;
use crate::field::{lemma_modulus_positive, modulus, Scalar};
use crate::lc::{
    distinct, evaluate, lemma_weighted_sum_extends, reduced, residues, LinearCombination,
};
use crate::variable::{Variable, Visibility};
use vstd::prelude::*;

verus! {

/// What a synthesis pass is run for.
#[derive(Clone, Copy, Debug, PartialEq, Eq, Structural)]
pub enum Mode {
    /// Only the structure of the circuit is recorded; values are never read.
    Setup,
    /// Every allocation must come with its value, which is recorded.
    Witness,
}

/// One allocation: the label it was made under and its visibility.
#[derive(Clone, Copy, Debug, PartialEq, Eq)]
pub struct Allocation {
    pub label: &'static str,
    pub visibility: Visibility,
}

/// A recorded rank-1 constraint `a * b = c`.
#[derive(Debug)]
pub struct Constraint {
    label: &'static str,
    a: LinearCombination,
    b: LinearCombination,
    c: LinearCombination,
}

/// A constraint as mathematical data.
pub ghost struct ConstraintView {
    pub label: &'static str,
    pub a: Seq<(Variable, nat)>,
    pub b: Seq<(Variable, nat)>,
    pub c: Seq<(Variable, nat)>,
}

impl View for Constraint {
    type V = ConstraintView;

    closed spec fn view(&self) -> ConstraintView {
        ConstraintView { label: self.label, a: self.a@, b: self.b@, c: self.c@ }
    }
}

impl Constraint {
    /// The label that the constraint was recorded under.
    pub fn label(&self) -> (r: &'static str)
        ensures
            r == self@.label,
    {
        self.label
    }

    /// The left factor.
    pub fn a(&self) -> (r: &LinearCombination)
        ensures
            r@ == self@.a,
    {
        &self.a
    }

    /// The right factor.
    pub fn b(&self) -> (r: &LinearCombination)
        ensures
            r@ == self@.b,
    {
        &self.b
    }

    /// The product.
    pub fn c(&self) -> (r: &LinearCombination)
        ensures
            r@ == self@.c,
    {
        &self.c
    }
}

/// The views of a sequence of constraints.
pub open spec fn constraint_views(constraints: Seq<Constraint>) -> Seq<ConstraintView> {
    constraints.map_values(|c: Constraint| c@)
}

/// The values of the public variables among the first `n` allocations, in
/// the order of allocation. The constant one at index zero is not among them:
/// it is no input.
pub open spec fn public_values(allocations: Seq<Allocation>, values: Seq<nat>, n: nat) -> Seq<nat>
    decreases n,
{
    if n <= 1 {
        Seq::empty()
    } else {
        let rest = public_values(allocations, values, (n - 1) as nat);
        if allocations[n - 1].visibility == Visibility::Public {
            rest.push(values[n - 1])
        } else {
            rest
        }
    }
}

/// The number of public variables among the first `n` allocations, the
/// constant one not counted.
pub open spec fn public_count(allocations: Seq<Allocation>, n: nat) -> nat
    decreases n,
{
    if n <= 1 {
        0
    } else {
        public_count(allocations, (n - 1) as nat) + if allocations[n - 1].visibility
            == Visibility::Public {
            1nat
        } else {
            0nat
        }
    }
}

/// Whether the assignment `w` makes `a * b = c` true in the field.
pub open spec fn holds_under(constraint: ConstraintView, w: Seq<nat>) -> bool {
    (evaluate(constraint.a, w) * evaluate(constraint.b, w)) % modulus() == evaluate(
        constraint.c,
        w,
    )
}

/// A constraint system as mathematical data.
pub ghost struct SystemView {
    pub mode: Mode,
    /// Every allocation so far, in call order. The first is the constant one.
    pub allocations: Seq<Allocation>,
    /// In a witness pass the value of every allocation; empty otherwise.
    pub values: Seq<nat>,
    /// Every constraint so far, in call order.
    pub constraints: Seq<ConstraintView>,
}

impl SystemView {
    /// The system before any allocation by a circuit: it holds the constant
    /// one and nothing else.
    pub open spec fn empty(mode: Mode) -> SystemView {
        SystemView {
            mode,
            allocations: seq![Allocation { label: "ONE", visibility: Visibility::Public }],
            values: if mode is Witness {
                seq![1nat]
            } else {
                Seq::empty()
            },
            constraints: Seq::empty(),
        }
    }

    /// Whether `v` is a variable that this system has allocated.
    pub open spec fn allocated(self, v: Variable) -> bool {
        v.index < self.allocations.len() && self.allocations[v.index as int].visibility
            == v.visibility
    }

    /// Whether every variable of `terms` has been allocated.
    pub open spec fn covers(self, terms: Seq<(Variable, nat)>) -> bool {
        forall|i: int| 0 <= i < terms.len() ==> self.allocated((#[trigger] terms[i]).0)
    }

    /// Whether `terms` can stand in a constraint of this system.
    pub open spec fn admits(self, terms: Seq<(Variable, nat)>) -> bool {
        distinct(terms) && reduced(terms) && self.covers(terms)
    }

    /// The invariant of a constraint system.
    pub open spec fn wf(self) -> bool {
        &&& 1 <= self.allocations.len() <= usize::MAX
        &&& self.allocations[0].visibility == Visibility::Public
        &&& self.mode is Setup ==> self.values.len() == 0
        &&& self.mode is Witness ==> {
            &&& self.values.len() == self.allocations.len()
            &&& self.values[0] == 1
            &&& forall|i: int| 0 <= i < self.values.len() ==> #[trigger] self.values[i] < modulus()
        }
        &&& forall|i: int|
            0 <= i < self.constraints.len() ==> {
                &&& self.admits((#[trigger] self.constraints[i]).a)
                &&& self.admits(self.constraints[i].b)
                &&& self.admits(self.constraints[i].c)
            }
    }

    /// What the circuit's structure is: the allocations and the constraints,
    /// without the values.
    pub open spec fn shape(self) -> (Seq<Allocation>, Seq<ConstraintView>) {
        (self.allocations, self.constraints)
    }

    /// Whether an allocation with this value succeeds: a setup pass takes
    /// any, a witness pass needs the value.
    pub open spec fn takes(self, value: Option<nat>) -> bool {
        self.mode is Setup || value is Some
    }

    /// The system after a successful allocation.
    pub open spec fn allocate(
        self,
        label: &'static str,
        visibility: Visibility,
        value: Option<nat>,
    ) -> SystemView {
        SystemView {
            allocations: self.allocations.push(Allocation { label, visibility }),
            values: if self.mode is Witness {
                self.values.push(value->0)
            } else {
                self.values
            },
            ..self
        }
    }

    /// The variable that the next allocation returns.
    pub open spec fn next(self, visibility: Visibility) -> Variable {
        Variable { index: self.allocations.len() as usize, visibility }
    }

    /// The system after recording `a * b = c`.
    pub open spec fn enforce(
        self,
        label: &'static str,
        a: Seq<(Variable, nat)>,
        b: Seq<(Variable, nat)>,
        c: Seq<(Variable, nat)>,
    ) -> SystemView {
        SystemView { constraints: self.constraints.push(ConstraintView { label, a, b, c }), ..self }
    }

    /// Whether the recorded values make `a * b = c` true in the field.
    pub open spec fn holds(self, constraint: ConstraintView) -> bool {
        holds_under(constraint, self.values)
    }

    /// Whether the system holds a witness that makes every constraint true.
    pub open spec fn satisfied(self) -> bool {
        &&& self.mode is Witness
        &&& forall|i: int| 0 <= i < self.constraints.len() ==> self.holds(#[trigger] self.constraints[i])
    }

    /// The values of the public variables, in the order of allocation. This
    /// is the vector that whoever checks the statement has to supply.
    pub open spec fn public_inputs(self) -> Seq<nat> {
        public_values(self.allocations, self.values, self.allocations.len())
    }

    /// The number of public variables that the circuit allocated.
    pub open spec fn num_public(self) -> nat {
        public_count(self.allocations, self.allocations.len())
    }

    /// What checking the system against the public inputs `inputs` gives.
    /// Without a witness there is nothing to check. A vector of the wrong
    /// length cannot belong to this circuit. Otherwise the check passes when
    /// the witness satisfies every constraint and its public values are
    /// `inputs`, in the order of allocation.
    pub open spec fn verdict(self, inputs: Seq<nat>) -> Result<bool, SynthesisError> {
        if self.mode is Setup {
            Err(SynthesisError::AssignmentMissing)
        } else if inputs.len() != self.num_public() {
            Err(SynthesisError::StructuralMismatch)
        } else {
            Ok(self.satisfied() && inputs == self.public_inputs())
        }
    }
}

/// The public values among the first `n` allocations depend on nothing but
/// the first `n` allocations and their values.
pub proof fn lemma_public_values_agree(
    a1: Seq<Allocation>,
    v1: Seq<nat>,
    a2: Seq<Allocation>,
    v2: Seq<nat>,
    n: nat,
)
    requires
        n <= a1.len(),
        n <= a2.len(),
        n <= v1.len(),
        n <= v2.len(),
        forall|i: int| 0 <= i < n ==> a1[i] == a2[i] && v1[i] == v2[i],
    ensures
        public_values(a1, v1, n) == public_values(a2, v2, n),
    decreases n,
{
    if n > 1 {
        lemma_public_values_agree(a1, v1, a2, v2, (n - 1) as nat);
    }
}

/// What is allocated and enforced later does not change whether a
/// constraint recorded earlier holds: a witness pass only appends values,
/// and a constraint reads only the variables allocated before it.
pub proof fn lemma_holds_extends(s: SystemView, constraint: ConstraintView, more: Seq<nat>)
    requires
        s.values.len() == s.allocations.len(),
        s.covers(constraint.a),
        s.covers(constraint.b),
        s.covers(constraint.c),
    ensures
        holds_under(constraint, s.values + more) == holds_under(constraint, s.values),
{
    lemma_weighted_sum_extends(constraint.a, s.values, more);
    lemma_weighted_sum_extends(constraint.b, s.values, more);
    lemma_weighted_sum_extends(constraint.c, s.values, more);
}

/// The system that holds nothing but the constant one is well formed, is
/// satisfied if it is a witness, and has no public inputs.
pub proof fn lemma_empty_system(mode: Mode)
    ensures
        SystemView::empty(mode).wf(),
        SystemView::empty(mode).public_inputs() == Seq::<nat>::empty(),
        SystemView::empty(mode).num_public() == 0,
        SystemView::empty(mode).satisfied() <==> mode is Witness,
{
    lemma_modulus_positive();
}

/// An allocation hands out an identity that was not in use, and takes none
/// away: identities are never reused.
pub proof fn lemma_allocation_is_fresh(
    s: SystemView,
    label: &'static str,
    visibility: Visibility,
    value: Option<nat>,
    u: Variable,
)
    requires
        s.wf(),
        s.allocations.len() < usize::MAX,
    ensures
        !s.allocated(s.next(visibility)),
        s.allocate(label, visibility, value).allocated(s.next(visibility)),
        s.allocated(u) ==> s.allocate(label, visibility, value).allocated(u) && u != s.next(
            visibility,
        ),
{
}

/// Only the public inputs of the recorded witness pass the check. A vector
/// that differs from them in length or in any position, and so any
/// reordering that changes it, is turned down: one of the wrong length as a
/// mismatch, any other with `false`.
pub proof fn lemma_verdict_pins_inputs(s: SystemView, inputs: Seq<nat>)
    requires
        s.wf(),
        s.mode is Witness,
        inputs != s.public_inputs(),
    ensures
        s.verdict(inputs) != Ok::<bool, SynthesisError>(true),
        inputs.len() != s.public_inputs().len() ==> s.verdict(inputs) == Err::<
            bool,
            SynthesisError,
        >(SynthesisError::StructuralMismatch),
        inputs.len() == s.public_inputs().len() ==> s.verdict(inputs) == Ok::<
            bool,
            SynthesisError,
        >(false),
{
    lemma_public_values_len(s.allocations, s.values, s.allocations.len());
}

/// There are as many public values as public variables.
pub proof fn lemma_public_values_len(allocations: Seq<Allocation>, values: Seq<nat>, n: nat)
    ensures
        public_values(allocations, values, n).len() == public_count(allocations, n),
    decreases n,
{
    if n > 1 {
        lemma_public_values_len(allocations, values, (n - 1) as nat);
    }
}

/// A rank-1 constraint system under construction.
#[derive(Debug)]
pub struct ConstraintSystem {
    mode: Mode,
    allocations: Vec<Allocation>,
    values: Vec<Scalar>,
    constraints: Vec<Constraint>,
}

impl View for ConstraintSystem {
    type V = SystemView;

    closed spec fn view(&self) -> SystemView {
        SystemView {
            mode: self.mode,
            allocations: self.allocations@,
            values: residues(self.values@),
            constraints: constraint_views(self.constraints@),
        }
    }
}

impl ConstraintSystem {
    /// The invariant of a constraint system.
    pub open spec fn wf(&self) -> bool {
        self@.wf()
    }

    /// A system that holds the constant one and nothing else.
    pub fn new(mode: Mode) -> (r: ConstraintSystem)
        ensures
            r.wf(),
            r@ == SystemView::empty(mode),
    {
        let mut allocations: Vec<Allocation> = Vec::new();
        allocations.push(Allocation { label: "ONE", visibility: Visibility::Public });
        let mut values: Vec<Scalar> = Vec::new();
        match mode {
            Mode::Witness => {
                values.push(Scalar::one());
            },
            Mode::Setup => {},
        }
        let r = ConstraintSystem { mode, allocations, values, constraints: Vec::new() };
        proof {
            lemma_modulus_positive();
            assert(r@.allocations =~= SystemView::empty(mode).allocations);
            assert(r@.values =~= SystemView::empty(mode).values);
            assert(r@.constraints =~= SystemView::empty(mode).constraints);
        }
        r
    }

    /// Allocates the next variable. A setup pass ignores `value`; a witness
    /// pass records it, and fails where there is none.
    pub fn allocate(
        &mut self,
        label: &'static str,
        visibility: Visibility,
        value: Option<Scalar>,
    ) -> (r: Result<Variable, SynthesisError>)
        requires
            old(self).wf(),
            value matches Some(v) ==> v.wf(),
        ensures
            final(self).wf(),
            r is Ok <==> old(self)@.takes(option_residue(value)),
            r matches Ok(v) ==> v == old(self)@.next(visibility) && final(self)@ == old(
                self,
            )@.allocate(label, visibility, option_residue(value)),
            r matches Err(e) ==> e == SynthesisError::AssignmentMissing && final(self)@ == old(
                self,
            )@,
    {
        let index = self.allocations.len();
        match self.mode {
            Mode::Setup => {},
            Mode::Witness => {
                match value {
                    Some(v) => {
                        self.values.push(v);
                    },
                    None => {
                        return Err(SynthesisError::AssignmentMissing);
                    },
                }
            },
        }
        self.allocations.push(Allocation { label, visibility });
        proof {
            let before = old(self)@;
            let after = before.allocate(label, visibility, option_residue(value));
            assert(self.allocations@.len() == self.allocations.len());
            assert(self@.values =~= after.values);
            assert(self@.allocations =~= after.allocations);
            assert(self@.constraints == after.constraints);
            assert forall|i: int| 0 <= i < after.constraints.len() implies {
                &&& after.admits((#[trigger] after.constraints[i]).a)
                &&& after.admits(after.constraints[i].b)
                &&& after.admits(after.constraints[i].c)
            } by {
                assert(before.admits(before.constraints[i].a));
                assert(before.admits(before.constraints[i].b));
                assert(before.admits(before.constraints[i].c));
            }
        }
        Ok(Variable { index, visibility })
    }

    /// Allocates a variable that only the prover knows.
    pub fn allocate_private(&mut self, label: &'static str, value: Option<Scalar>) -> (r: Result<
        Variable,
        SynthesisError,
    >)
        requires
            old(self).wf(),
            value matches Some(v) ==> v.wf(),
        ensures
            final(self).wf(),
            r is Ok <==> old(self)@.takes(option_residue(value)),
            r matches Ok(v) ==> v == old(self)@.next(Visibility::Private) && final(self)@ == old(
                self,
            )@.allocate(label, Visibility::Private, option_residue(value)),
            r matches Err(e) ==> e == SynthesisError::AssignmentMissing && final(self)@ == old(
                self,
            )@,
    {
        self.allocate(label, Visibility::Private, value)
    }

    /// Allocates a variable whose value is part of the statement. In a
    /// witness pass the value joins the public inputs, after those of the
    /// public variables allocated before.
    pub fn allocate_public(&mut self, label: &'static str, value: Option<Scalar>) -> (r: Result<
        Variable,
        SynthesisError,
    >)
        requires
            old(self).wf(),
            value matches Some(v) ==> v.wf(),
        ensures
            final(self).wf(),
            r is Ok <==> old(self)@.takes(option_residue(value)),
            r matches Ok(v) ==> v == old(self)@.next(Visibility::Public) && final(self)@ == old(
                self,
            )@.allocate(label, Visibility::Public, option_residue(value)),
            r matches Err(e) ==> e == SynthesisError::AssignmentMissing && final(self)@ == old(
                self,
            )@,
    {
        self.allocate(label, Visibility::Public, value)
    }

    /// Records the constraint `a * b = c`. Nothing is checked here: whether
    /// the constraints say what the circuit means is up to its author.
    pub fn enforce(
        &mut self,
        label: &'static str,
        a: LinearCombination,
        b: LinearCombination,
        c: LinearCombination,
    )
        requires
            old(self).wf(),
            old(self)@.admits(a@),
            old(self)@.admits(b@),
            old(self)@.admits(c@),
        ensures
            final(self).wf(),
            final(self)@ == old(self)@.enforce(label, a@, b@, c@),
    {
        let constraint = Constraint { label, a, b, c };
        self.constraints.push(constraint);
        proof {
            let before = old(self)@;
            let after = before.enforce(label, a@, b@, c@);
            assert(self@.constraints =~= after.constraints);
            assert forall|i: int| 0 <= i < after.constraints.len() implies {
                &&& after.admits((#[trigger] after.constraints[i]).a)
                &&& after.admits(after.constraints[i].b)
                &&& after.admits(after.constraints[i].c)
            } by {
                if i < before.constraints.len() {
                    assert(before.admits(before.constraints[i].a));
                    assert(before.admits(before.constraints[i].b));
                    assert(before.admits(before.constraints[i].c));
                }
            }
        }
    }

    /// Whether every variable of `lc` has been allocated by this system, so
    /// that `lc` can stand in a constraint of it.
    pub fn covers(&self, lc: &LinearCombination) -> (r: bool)
        requires
            self.wf(),
        ensures
            r == self@.covers(lc@),
    {
        let mut i: usize = 0;
        while i < lc.len()
            invariant
                i <= lc@.len(),
                forall|k: int| 0 <= k < i ==> self@.allocated((#[trigger] lc@[k]).0),
            decreases lc@.len() - i,
        {
            let term = lc.term(i);
            let known = term.0.index < self.allocations.len()
                && self.allocations[term.0.index].visibility == term.0.visibility;
            if !known {
                assert(!self@.allocated(lc@[i as int].0));
                return false;
            }
            i += 1;
        }
        true
    }

    /// Whether the system holds a witness under which every recorded
    /// constraint is true.
    pub fn is_satisfied(&self) -> (r: bool)
        requires
            self.wf(),
        ensures
            r == self@.satisfied(),
    {
        match self.mode {
            Mode::Setup => {
                return false;
            },
            Mode::Witness => {},
        }
        let mut i: usize = 0;
        while i < self.constraints.len()
            invariant
                i <= self.constraints.len(),
                self.wf(),
                self.mode is Witness,
                forall|k: int| 0 <= k < i ==> self@.holds(#[trigger] self@.constraints[k]),
            decreases self.constraints.len() - i,
        {
            let constraint = &self.constraints[i];
            proof {
                assert(self@.constraints[i as int] == constraint@);
                assert(self@.admits(self@.constraints[i as int].a));
                assert(self@.admits(self@.constraints[i as int].b));
                assert(self@.admits(self@.constraints[i as int].c));
                assert forall|k: int| 0 <= k < self.values.len() implies (
                #[trigger] self.values[k]).wf() by {
                    assert(self@.values[k] == self.values[k]@);
                }
            }
            let a = constraint.a.evaluate(&self.values);
            let b = constraint.b.evaluate(&self.values);
            let c = constraint.c.evaluate(&self.values);
            let product = a.mul(b);
            if product != c {
                proof {
                    if product@ == c@ {
                        Scalar::lemma_view_injective(product, c);
                    }
                }
                return false;
            }
            i += 1;
        }
        true
    }

    /// The values of the public variables in the order of allocation: the
    /// vector that a verifier of the statement needs. A setup pass has none.
    pub fn public_inputs(&self) -> (r: Option<Vec<Scalar>>)
        requires
            self.wf(),
        ensures
            r is Some <==> self@.mode is Witness,
            r matches Some(v) ==> residues(v@) == self@.public_inputs(),
    {
        match self.mode {
            Mode::Setup => {
                return None;
            },
            Mode::Witness => {},
        }
        let mut inputs: Vec<Scalar> = Vec::new();
        let mut i: usize = 1;
        assert(residues(inputs@) =~= public_values(self@.allocations, self@.values, 1));
        while i < self.allocations.len()
            invariant
                1 <= i <= self.allocations.len(),
                self.wf(),
                self.mode is Witness,
                residues(inputs@) == public_values(self@.allocations, self@.values, i as nat),
            decreases self.allocations.len() - i,
        {
            match self.allocations[i].visibility {
                Visibility::Public => {
                    inputs.push(self.values[i]);
                    assert(residues(inputs@) =~= public_values(
                        self@.allocations,
                        self@.values,
                        (i + 1) as nat,
                    ));
                },
                Visibility::Private => {},
            }
            i += 1;
        }
        Some(inputs)
    }

    /// Checks the recorded witness against the public inputs that a verifier
    /// offers.
    pub fn verify(&self, public_inputs: &[Scalar]) -> (r: Result<bool, SynthesisError>)
        requires
            self.wf(),
        ensures
            r == self@.verdict(residues(public_inputs@)),
    {
        let own = match self.public_inputs() {
            Some(v) => v,
            None => {
                return Err(SynthesisError::AssignmentMissing);
            },
        };
        proof {
            lemma_public_values_len(self@.allocations, self@.values, self@.allocations.len());
            assert(residues(own@).len() == own@.len());
            assert(residues(public_inputs@).len() == public_inputs@.len());
        }
        if public_inputs.len() != own.len() {
            return Err(SynthesisError::StructuralMismatch);
        }
        let mut i: usize = 0;
        while i < own.len()
            invariant
                i <= own.len(),
                own.len() == public_inputs.len(),
                self@.mode is Witness,
                residues(own@) == self@.public_inputs(),
                residues(public_inputs@).len() == self@.num_public(),
                forall|k: int| 0 <= k < i ==> (#[trigger] public_inputs@[k])@ == own@[k]@,
            decreases own.len() - i,
        {
            if public_inputs[i] != own[i] {
                proof {
                    if public_inputs@[i as int]@ == own@[i as int]@ {
                        Scalar::lemma_view_injective(public_inputs@[i as int], own@[i as int]);
                    }
                    assert(residues(public_inputs@)[i as int] != residues(own@)[i as int]);
                }
                return Ok(false);
            }
            i += 1;
        }
        assert(residues(public_inputs@) =~= residues(own@));
        Ok(self.is_satisfied())
    }

    /// The mode that the system was made for.
    pub fn mode(&self) -> (r: Mode)
        ensures
            r == self@.mode,
    {
        self.mode
    }

    /// The number of allocations so far, the constant one included.
    pub fn num_allocations(&self) -> (r: usize)
        ensures
            r == self@.allocations.len(),
    {
        self.allocations.len()
    }

    /// Allocation `i` in call order.
    pub fn allocation(&self, i: usize) -> (r: Allocation)
        requires
            i < self@.allocations.len(),
        ensures
            r == self@.allocations[i as int],
    {
        self.allocations[i]
    }

    /// The recorded value of allocation `i`; a setup pass has recorded none.
    pub fn value(&self, i: usize) -> (r: Option<Scalar>)
        requires
            self.wf(),
            i < self@.allocations.len(),
        ensures
            r is Some <==> self@.mode is Witness,
            r matches Some(v) ==> v.wf() && v@ == self@.values[i as int],
    {
        match self.mode {
            Mode::Setup => None,
            Mode::Witness => {
                assert(self@.values[i as int] == self.values[i as int]@);
                Some(self.values[i])
            },
        }
    }

    /// The number of constraints so far.
    pub fn num_constraints(&self) -> (r: usize)
        ensures
            r == self@.constraints.len(),
    {
        self.constraints.len()
    }

    /// Constraint `i` in call order.
    pub fn constraint(&self, i: usize) -> (r: &Constraint)
        requires
            i < self@.constraints.len(),
        ensures
            r@ == self@.constraints[i as int],
    {
        &self.constraints[i]
    }
}

/// The residue of an optional scalar.
pub open spec fn option_residue(value: Option<Scalar>) -> Option<nat> {
    match value {
        Some(v) => Some(v@),
        None => None,
    }
}

} // verus!
