//! Linear combinations of variables with coefficients in the scalar field.
//!
//! A combination is modelled as a sequence of `(variable, coefficient)` terms
//! in which no variable occurs twice. The constant part of a combination is
//! the coefficient of [`Variable::one`].

use crate::field::{lemma_modulus_positive, modulus, Scalar};
use crate::variable::Variable;
use vstd::arithmetic::div_mod::{
    lemma_add_mod_noop, lemma_add_mod_noop_right, lemma_mod_twice, lemma_mul_mod_noop_left,
    lemma_small_mod,
};
use vstd::arithmetic::mul::lemma_mul_is_distributive_add_other_way;
use vstd::prelude::*;

verus! {

/// Whether some term of `terms` is about `v`.
pub open spec fn mentions(terms: Seq<(Variable, nat)>, v: Variable) -> bool {
    exists|i: int| 0 <= i < terms.len() && (#[trigger] terms[i]).0 == v
}

/// The position of a term about `v`, where there is one.
pub open spec fn position_of(terms: Seq<(Variable, nat)>, v: Variable) -> int {
    choose|i: int| 0 <= i < terms.len() && (#[trigger] terms[i]).0 == v
}

/// The coefficient that `terms` gives to `v`: zero where `v` is not mentioned.
pub open spec fn coefficient_of(terms: Seq<(Variable, nat)>, v: Variable) -> nat {
    if mentions(terms, v) {
        terms[position_of(terms, v)].1
    } else {
        0
    }
}

/// No variable occurs in two terms.
pub open spec fn distinct(terms: Seq<(Variable, nat)>) -> bool {
    forall|i: int, j: int|
        0 <= i < j < terms.len() ==> (#[trigger] terms[i]).0 != (#[trigger] terms[j]).0
}

/// Every coefficient is a canonical residue.
pub open spec fn reduced(terms: Seq<(Variable, nat)>) -> bool {
    forall|i: int| 0 <= i < terms.len() ==> (#[trigger] terms[i]).1 < modulus()
}

/// `terms` plus `c` times `v`: the coefficient of `v` grows by `c` in the
/// field where `v` is already mentioned, and a new term is appended where it
/// is not.
pub open spec fn with_term(terms: Seq<(Variable, nat)>, v: Variable, c: nat) -> Seq<
    (Variable, nat),
> {
    if mentions(terms, v) {
        let i = position_of(terms, v);
        terms.update(i, (v, ((terms[i].1 + c) % modulus()) as nat))
    } else {
        terms.push((v, c))
    }
}

/// `terms` plus every term of `more`, taken in order.
pub open spec fn with_terms(terms: Seq<(Variable, nat)>, more: Seq<(Variable, nat)>) -> Seq<
    (Variable, nat),
>
    decreases more.len(),
{
    if more.len() == 0 {
        terms
    } else {
        with_term(with_terms(terms, more.drop_last()), more.last().0, more.last().1)
    }
}

/// The value that the assignment `w` gives to `v`. An assignment lists the
/// values of the variables by index; a variable beyond its end counts as zero.
pub open spec fn value_of(w: Seq<nat>, v: Variable) -> nat {
    if v.index < w.len() {
        w[v.index as int]
    } else {
        0
    }
}

/// The integer sum of coefficient times value over all terms.
pub open spec fn weighted_sum(terms: Seq<(Variable, nat)>, w: Seq<nat>) -> nat
    decreases terms.len(),
{
    if terms.len() == 0 {
        0
    } else {
        weighted_sum(terms.drop_last(), w) + terms.last().1 * value_of(w, terms.last().0)
    }
}

/// The field element that a combination takes under the assignment `w`.
pub open spec fn evaluate(terms: Seq<(Variable, nat)>, w: Seq<nat>) -> nat {
    weighted_sum(terms, w) % modulus()
}

/// The terms of a combination, each coefficient as its residue.
pub open spec fn term_residues(terms: Seq<(Variable, Scalar)>) -> Seq<(Variable, nat)> {
    terms.map_values(|t: (Variable, Scalar)| (t.0, t.1@))
}

/// The residues of a sequence of scalars.
pub open spec fn residues(values: Seq<Scalar>) -> Seq<nat> {
    values.map_values(|s: Scalar| s@)
}

/// Replacing one term changes the weighted sum by the difference of the two
/// terms' contributions.
proof fn lemma_weighted_sum_update(
    terms: Seq<(Variable, nat)>,
    i: int,
    t: (Variable, nat),
    w: Seq<nat>,
)
    requires
        0 <= i < terms.len(),
    ensures
        weighted_sum(terms.update(i, t), w) + terms[i].1 * value_of(w, terms[i].0) == weighted_sum(
            terms,
            w,
        ) + t.1 * value_of(w, t.0),
    decreases terms.len(),
{
    let changed = terms.update(i, t);
    if i == terms.len() - 1 {
        assert(changed.drop_last() =~= terms.drop_last());
    } else {
        assert(changed.drop_last() =~= terms.drop_last().update(i, t));
        lemma_weighted_sum_update(terms.drop_last(), i, t, w);
    }
}

/// Raising a coefficient by `c` under the modulus raises the value of the
/// combination by `c * x` under the modulus.
proof fn lemma_mod_merge(rest: int, a: int, c: int, x: int, m: int)
    requires
        m > 0,
    ensures
        (rest + ((a + c) % m) * x) % m == ((rest + a * x) % m + c * x) % m,
{
    lemma_mul_mod_noop_left(a + c, x, m);
    lemma_mul_is_distributive_add_other_way(x, a, c);
    lemma_add_mod_noop_right(rest, ((a + c) % m) * x, m);
    lemma_add_mod_noop_right(rest, (a + c) * x, m);
    lemma_add_mod_noop(rest + a * x, c * x, m);
    lemma_add_mod_noop_right((rest + a * x) % m, c * x, m);
}

/// Adding a term adds its contribution to the value of the combination.
pub proof fn lemma_with_term_evaluates(
    terms: Seq<(Variable, nat)>,
    v: Variable,
    c: nat,
    w: Seq<nat>,
)
    ensures
        evaluate(with_term(terms, v, c), w) == (evaluate(terms, w) + c * value_of(w, v))
            % modulus(),
{
    lemma_modulus_positive();
    let m = modulus() as int;
    let x = value_of(w, v) as int;
    if mentions(terms, v) {
        let i = position_of(terms, v);
        let a = terms[i].1 as int;
        lemma_weighted_sum_update(terms, i, (v, ((a + c) % m) as nat), w);
        lemma_weighted_sum_bounds_term(terms, i, w);
        lemma_mod_merge(weighted_sum(terms, w) - a * x, a, c as int, x, m);
    } else {
        assert(terms.push((v, c)).drop_last() =~= terms);
        lemma_add_mod_noop_right((c * x) as int, weighted_sum(terms, w) as int, m);
    }
}

/// Each term's contribution is at most the whole weighted sum.
proof fn lemma_weighted_sum_bounds_term(terms: Seq<(Variable, nat)>, i: int, w: Seq<nat>)
    requires
        0 <= i < terms.len(),
    ensures
        terms[i].1 * value_of(w, terms[i].0) <= weighted_sum(terms, w),
    decreases terms.len(),
{
    if i < terms.len() - 1 {
        lemma_weighted_sum_bounds_term(terms.drop_last(), i, w);
    }
}

/// Adding a term keeps the terms distinct and the coefficients reduced.
pub proof fn lemma_with_term_keeps_form(terms: Seq<(Variable, nat)>, v: Variable, c: nat)
    requires
        distinct(terms),
        reduced(terms),
        c < modulus(),
    ensures
        distinct(with_term(terms, v, c)),
        reduced(with_term(terms, v, c)),
{
    let after = with_term(terms, v, c);
    if mentions(terms, v) {
        let p = position_of(terms, v);
        assert forall|i: int, j: int| 0 <= i < j < after.len() implies (#[trigger] after[i]).0 != (
        #[trigger] after[j]).0 by {
            assert(after[i].0 == terms[i].0);
            assert(after[j].0 == terms[j].0);
        }
    } else {
        assert forall|i: int, j: int| 0 <= i < j < after.len() implies (#[trigger] after[i]).0 != (
        #[trigger] after[j]).0 by {
            assert(after[i] == terms[i]);
            if j < terms.len() {
                assert(after[j] == terms[j]);
            }
        }
    }
}

/// Adding a term raises the coefficient of its variable by `c` in the field
/// and leaves every other coefficient as it was.
pub proof fn lemma_with_term_coefficients(
    terms: Seq<(Variable, nat)>,
    v: Variable,
    c: nat,
    u: Variable,
)
    requires
        distinct(terms),
        reduced(terms),
        c < modulus(),
    ensures
        coefficient_of(with_term(terms, v, c), u) == if u == v {
            ((coefficient_of(terms, v) + c) % modulus()) as nat
        } else {
            coefficient_of(terms, u)
        },
{
    let after = with_term(terms, v, c);
    lemma_with_term_keeps_form(terms, v, c);
    lemma_small_mod(c, modulus());
    if mentions(terms, v) {
        let p = position_of(terms, v);
        assert(after[p].0 == v);
        if mentions(terms, u) {
            let q = position_of(terms, u);
            assert(after[q].0 == u);
            let k = position_of(after, u);
            assert(terms[k].0 == after[k].0);
        } else if mentions(after, u) {
            let k = position_of(after, u);
            assert(terms[k].0 == after[k].0);
        }
    } else {
        let n = terms.len() as int;
        assert(after[n].0 == v);
        if u == v {
            let k = position_of(after, u);
            if k < n {
                assert(after[k] == terms[k]);
            }
        } else if mentions(terms, u) {
            let q = position_of(terms, u);
            assert(after[q] == terms[q]);
            let k = position_of(after, u);
            assert(after[k] == terms[k]);
        } else if mentions(after, u) {
            let k = position_of(after, u);
            assert(after[k] == terms[k]);
        }
    }
}

/// Two ways of grouping a sum of three numbers under a modulus agree.
proof fn lemma_mod_regroup(a: int, b: int, c: int, m: int)
    requires
        m > 0,
    ensures
        ((a % m + b % m) % m + c) % m == (a % m + (b + c) % m) % m,
{
    lemma_add_mod_noop(a % m + b % m, c, m);
    lemma_add_mod_noop_right((a % m + b % m) % m, c, m);
    lemma_add_mod_noop_right(a % m, b + c, m);
    lemma_add_mod_noop_right(a % m + c, b, m);
}

/// Adding all terms of one combination to another adds their values.
pub proof fn lemma_with_terms_evaluates(
    terms: Seq<(Variable, nat)>,
    more: Seq<(Variable, nat)>,
    w: Seq<nat>,
)
    ensures
        evaluate(with_terms(terms, more), w) == (evaluate(terms, w) + evaluate(more, w))
            % modulus(),
    decreases more.len(),
{
    lemma_modulus_positive();
    let m = modulus() as int;
    if more.len() > 0 {
        let front = more.drop_last();
        let last = more.last();
        lemma_with_terms_evaluates(terms, front, w);
        lemma_with_term_evaluates(with_terms(terms, front), last.0, last.1, w);
        lemma_mod_regroup(
            weighted_sum(terms, w) as int,
            weighted_sum(front, w) as int,
            (last.1 * value_of(w, last.0)) as int,
            m,
        );
    } else {
        lemma_small_mod(0, modulus());
        lemma_mod_twice(weighted_sum(terms, w) as int, m);
    }
}

/// Adding all terms of one combination to another adds, variable by
/// variable, the coefficients that the two give.
pub proof fn lemma_with_terms_coefficients(
    terms: Seq<(Variable, nat)>,
    more: Seq<(Variable, nat)>,
    u: Variable,
)
    requires
        distinct(terms),
        reduced(terms),
        distinct(more),
        reduced(more),
    ensures
        coefficient_of(with_terms(terms, more), u) == (coefficient_of(terms, u) + coefficient_of(
            more,
            u,
        )) % modulus(),
    decreases more.len(),
{
    lemma_modulus_positive();
    let m = modulus() as int;
    if more.len() == 0 {
        if mentions(terms, u) {
            lemma_small_mod(terms[position_of(terms, u)].1, modulus());
        } else {
            lemma_small_mod(0, modulus());
        }
    } else {
        let front = more.drop_last();
        let last = more.last();
        assert forall|i: int| 0 <= i < front.len() implies (#[trigger] front[i]) == more[i] by {}
        assert(distinct(front) && reduced(front));
        lemma_with_terms_coefficients(terms, front, u);
        lemma_with_terms_keeps_form(terms, front);
        lemma_with_term_coefficients(with_terms(terms, front), last.0, last.1, u);
        let n = front.len() as int;
        assert(more[n] == last);
        if u == last.0 {
            assert(!mentions(front, u)) by {
                if mentions(front, u) {
                    let q = position_of(front, u);
                    assert(more[q].0 != more[n].0);
                }
            }
            let k = position_of(more, u);
            assert(k == n) by {
                if k < n {
                    assert(more[k].0 != more[n].0);
                }
            }
            lemma_add_mod_noop(coefficient_of(terms, u) as int, 0, m);
            lemma_small_mod(0, modulus());
            lemma_add_mod_noop_right(last.1 as int, coefficient_of(terms, u) as int, m);
        } else if mentions(front, u) {
            let q = position_of(front, u);
            assert(more[q].0 == u);
            let k = position_of(more, u);
            assert(k == q) by {
                if k < q {
                    assert(more[k].0 != more[q].0);
                } else if q < k {
                    assert(more[q].0 != more[k].0);
                }
            }
        } else if mentions(more, u) {
            let k = position_of(more, u);
            assert(front[k].0 == u);
        }
    }
}

/// Adding all terms of a well-formed combination keeps the form.
pub proof fn lemma_with_terms_keeps_form(terms: Seq<(Variable, nat)>, more: Seq<(Variable, nat)>)
    requires
        distinct(terms),
        reduced(terms),
        reduced(more),
    ensures
        distinct(with_terms(terms, more)),
        reduced(with_terms(terms, more)),
    decreases more.len(),
{
    if more.len() > 0 {
        let front = more.drop_last();
        assert(reduced(front)) by {
            assert forall|i: int| 0 <= i < front.len() implies (#[trigger] front[i]).1
                < modulus() by {
                assert(front[i] == more[i]);
            }
        }
        lemma_with_terms_keeps_form(terms, front);
        lemma_with_term_keeps_form(with_terms(terms, front), more.last().0, more.last().1);
    }
}

/// A term appended at the end adds its contribution to the weighted sum.
pub proof fn lemma_weighted_sum_push(terms: Seq<(Variable, nat)>, t: (Variable, nat), w: Seq<nat>)
    ensures
        weighted_sum(terms.push(t), w) == weighted_sum(terms, w) + t.1 * value_of(w, t.0),
{
    assert(terms.push(t).drop_last() =~= terms);
}

/// A combination of one term takes the value of that term.
pub proof fn lemma_evaluate_one(v: Variable, c: nat, w: Seq<nat>)
    ensures
        evaluate(seq![(v, c)], w) == (c * value_of(w, v)) % modulus(),
{
    let none = Seq::<(Variable, nat)>::empty();
    assert(seq![(v, c)] =~= none.push((v, c)));
    lemma_weighted_sum_push(none, (v, c), w);
}

/// Values given to further variables do not change what a combination over
/// the first `w.len()` variables evaluates to.
pub proof fn lemma_weighted_sum_extends(terms: Seq<(Variable, nat)>, w: Seq<nat>, more: Seq<nat>)
    requires
        forall|i: int| 0 <= i < terms.len() ==> (#[trigger] terms[i]).0.index < w.len(),
    ensures
        weighted_sum(terms, w + more) == weighted_sum(terms, w),
    decreases terms.len(),
{
    if terms.len() > 0 {
        let front = terms.drop_last();
        assert forall|i: int| 0 <= i < front.len() implies (#[trigger] front[i]).0.index
            < w.len() by {
            assert(front[i] == terms[i]);
        }
        lemma_weighted_sum_extends(front, w, more);
        assert(terms.last() == terms[terms.len() - 1]);
    }
}

/// Adding a term for a variable that is not mentioned appends the term.
pub proof fn lemma_with_term_fresh(terms: Seq<(Variable, nat)>, v: Variable, c: nat)
    requires
        forall|i: int| 0 <= i < terms.len() ==> (#[trigger] terms[i]).0 != v,
    ensures
        with_term(terms, v, c) == terms.push((v, c)),
{
}

/// A linear combination of variables, built up term by term.
#[derive(Debug)]
pub struct LinearCombination {
    terms: Vec<(Variable, Scalar)>,
}

impl View for LinearCombination {
    type V = Seq<(Variable, nat)>;

    /// The terms, each coefficient as its residue.
    closed spec fn view(&self) -> Seq<(Variable, nat)> {
        term_residues(self.terms@)
    }
}

impl LinearCombination {
    /// A combination is well formed when no variable occurs twice and every
    /// coefficient is a canonical residue.
    pub open spec fn wf(&self) -> bool {
        distinct(self@) && reduced(self@)
    }

    /// The combination without terms, which evaluates to zero.
    pub fn zero() -> (r: LinearCombination)
        ensures
            r.wf(),
            r@ == Seq::<(Variable, nat)>::empty(),
    {
        let r = LinearCombination { terms: Vec::new() };
        assert(r@ =~= Seq::<(Variable, nat)>::empty());
        r
    }

    /// Adds `coefficient` times `variable`. Where the variable already has a
    /// term, the two coefficients are added in the field.
    pub fn add_term(self, coefficient: Scalar, variable: Variable) -> (r: LinearCombination)
        requires
            self.wf(),
            coefficient.wf(),
        ensures
            r.wf(),
            r@ == with_term(self@, variable, coefficient@),
    {
        let ghost before = self@;
        let mut terms = self.terms;
        let mut i: usize = 0;
        while i < terms.len()
            invariant
                i <= terms.len(),
                before == self@,
                term_residues(terms@) == before,
                distinct(before),
                reduced(before),
                coefficient.wf(),
                forall|j: int| 0 <= j < i ==> (#[trigger] before[j]).0 != variable,
            decreases terms.len() - i,
        {
            let term = terms[i];
            if term.0 == variable {
                assert(before[i as int] == (term.0, term.1@));
                let merged = term.1.add(coefficient);
                terms.set(i, (variable, merged));
                proof {
                    assert(mentions(before, variable));
                    let p = position_of(before, variable);
                    assert(p == i) by {
                        if p < i {
                            assert(before[p].0 != before[i as int].0);
                        } else if p > i {
                            assert(before[i as int].0 != before[p].0);
                        }
                    }
                    assert(term_residues(terms@) =~= with_term(
                        before,
                        variable,
                        coefficient@,
                    ));
                    lemma_with_term_keeps_form(before, variable, coefficient@);
                }
                return LinearCombination { terms };
            }
            i += 1;
        }
        terms.push((variable, coefficient));
        proof {
            assert(!mentions(before, variable));
            assert(term_residues(terms@) =~= with_term(
                before,
                variable,
                coefficient@,
            ));
            lemma_with_term_keeps_form(before, variable, coefficient@);
        }
        LinearCombination { terms }
    }

    /// Adds `variable` with coefficient one.
    pub fn add_variable(self, variable: Variable) -> (r: LinearCombination)
        requires
            self.wf(),
        ensures
            r.wf(),
            r@ == with_term(self@, variable, 1),
    {
        self.add_term(Scalar::one(), variable)
    }

    /// Adds every term of `other`, merging the coefficients of the variables
    /// that both combinations mention.
    pub fn add(self, other: &LinearCombination) -> (r: LinearCombination)
        requires
            self.wf(),
            other.wf(),
        ensures
            r.wf(),
            r@ == with_terms(self@, other@),
    {
        let ghost before = self@;
        let mut sum = self;
        let mut i: usize = 0;
        while i < other.terms.len()
            invariant
                i <= other.terms.len(),
                other.wf(),
                sum.wf(),
                sum@ == with_terms(before, other@.take(i as int)),
            decreases other.terms.len() - i,
        {
            let term = other.terms[i];
            proof {
                assert(other@[i as int] == (term.0, term.1@));
                assert(other@.take(i + 1).drop_last() =~= other@.take(i as int));
            }
            sum = sum.add_term(term.1, term.0);
            i += 1;
        }
        proof {
            assert(other@.take(i as int) =~= other@);
        }
        sum
    }

    /// The value of the combination when variable `i` holds `values[i]`.
    /// A variable beyond the end of `values` counts as zero.
    pub fn evaluate(&self, values: &Vec<Scalar>) -> (r: Scalar)
        requires
            self.wf(),
            forall|i: int| 0 <= i < values.len() ==> (#[trigger] values[i]).wf(),
        ensures
            r.wf(),
            r@ == evaluate(self@, residues(values@)),
    {
        let ghost w = residues(values@);
        let mut acc = Scalar::zero();
        let mut i: usize = 0;
        proof {
            lemma_small_mod(0, modulus());
        }
        while i < self.terms.len()
            invariant
                i <= self.terms.len(),
                self.wf(),
                w == residues(values@),
                forall|k: int| 0 <= k < values.len() ==> (#[trigger] values[k]).wf(),
                acc.wf(),
                acc@ == evaluate(self@.take(i as int), w),
            decreases self.terms.len() - i,
        {
            let term = self.terms[i];
            let value = if term.0.index < values.len() {
                values[term.0.index]
            } else {
                Scalar::zero()
            };
            proof {
                assert(self@[i as int] == (term.0, term.1@));
                assert(self@.take(i + 1).drop_last() =~= self@.take(i as int));
                assert(value@ == value_of(w, term.0));
                lemma_modulus_positive();
                let m = modulus() as int;
                let s = weighted_sum(self@.take(i as int), w) as int;
                let x = (term.1@ * value@) as int;
                lemma_add_mod_noop(s, x, m);
                lemma_mod_twice(s, m);
            }
            acc = acc.add(term.1.mul(value));
            i += 1;
        }
        proof {
            assert(self@.take(i as int) =~= self@);
        }
        acc
    }

    /// The number of terms.
    pub fn len(&self) -> (r: usize)
        ensures
            r == self@.len(),
    {
        self.terms.len()
    }

    /// The variable and the coefficient of term `i`.
    pub fn term(&self, i: usize) -> (r: (Variable, Scalar))
        requires
            i < self@.len(),
        ensures
            (r.0, r.1@) == self@[i as int],
    {
        self.terms[i]
    }
}

} // verus!
