//! Linear combinations: building, merging and evaluating.

use r1cs_circuits::field::Scalar;
use r1cs_circuits::lc::LinearCombination;
use r1cs_circuits::variable::{Variable, Visibility};

fn scalar(s: &str) -> Scalar {
    Scalar::from_str(s).unwrap()
}

fn private(index: usize) -> Variable {
    Variable { index, visibility: Visibility::Private }
}

fn terms(lc: &LinearCombination) -> Vec<(Variable, Scalar)> {
    (0..lc.len()).map(|i| lc.term(i)).collect()
}

fn minus_one() -> Scalar {
    scalar("52435875175126190479447740508185965837690552500527637822603658699938581184512")
}

#[test]
fn the_constant_one_is_the_first_public_variable() {
    assert_eq!(Variable::one(), Variable { index: 0, visibility: Visibility::Public });
    assert_eq!(Variable::one().index(), 0);
    assert_eq!(Variable::one().visibility(), Visibility::Public);
}

#[test]
fn zero_has_no_terms_and_evaluates_to_zero() {
    let lc = LinearCombination::zero();
    assert_eq!(lc.len(), 0);
    assert_eq!(lc.evaluate(&vec![Scalar::one(), scalar("9")]), Scalar::zero());
}

#[test]
fn add_variable_gives_the_coefficient_one() {
    let lc = LinearCombination::zero().add_variable(private(2));
    assert_eq!(terms(&lc), vec![(private(2), Scalar::one())]);
}

#[test]
fn add_term_appends_new_variables_in_order() {
    let lc = LinearCombination::zero()
        .add_term(scalar("4"), private(3))
        .add_variable(private(1))
        .add_term(scalar("5"), Variable::one());
    assert_eq!(
        terms(&lc),
        vec![
            (private(3), scalar("4")),
            (private(1), Scalar::one()),
            (Variable::one(), scalar("5")),
        ]
    );
}

#[test]
fn add_term_merges_the_coefficients_of_one_variable() {
    let lc = LinearCombination::zero()
        .add_term(scalar("2"), private(1))
        .add_term(scalar("7"), private(2))
        .add_term(scalar("3"), private(1));
    assert_eq!(terms(&lc), vec![(private(1), scalar("5")), (private(2), scalar("7"))]);
}

#[test]
fn variables_of_different_visibility_are_different_variables() {
    let public = Variable { index: 1, visibility: Visibility::Public };
    let lc = LinearCombination::zero().add_variable(private(1)).add_variable(public);
    assert_eq!(terms(&lc), vec![(private(1), Scalar::one()), (public, Scalar::one())]);
}

#[test]
fn merged_coefficients_wrap_around_the_field_order() {
    let lc = LinearCombination::zero()
        .add_term(minus_one(), private(1))
        .add_term(scalar("3"), private(1));
    assert_eq!(terms(&lc), vec![(private(1), scalar("2"))]);
}

#[test]
fn a_combination_of_zero_coefficients_is_zero() {
    let lc = LinearCombination::zero()
        .add_term(minus_one(), private(1))
        .add_variable(private(1))
        .add_term(Scalar::zero(), private(2));
    assert_eq!(terms(&lc), vec![(private(1), Scalar::zero()), (private(2), Scalar::zero())]);
    let values = vec![Scalar::one(), scalar("1234"), scalar("5678")];
    assert_eq!(lc.evaluate(&values), Scalar::zero());
}

#[test]
fn add_merges_shared_variables() {
    let left = LinearCombination::zero().add_variable(private(1)).add_term(scalar("2"), private(2));
    let right =
        LinearCombination::zero().add_term(scalar("3"), private(2)).add_variable(private(3));
    let sum = left.add(&right);
    assert_eq!(
        terms(&sum),
        vec![
            (private(1), Scalar::one()),
            (private(2), scalar("5")),
            (private(3), Scalar::one()),
        ]
    );
    assert_eq!(terms(&right), vec![(private(2), scalar("3")), (private(3), Scalar::one())]);
}

#[test]
fn add_of_zero_changes_nothing() {
    let lc = LinearCombination::zero().add_term(scalar("2"), private(1));
    let sum = lc.add(&LinearCombination::zero());
    assert_eq!(terms(&sum), vec![(private(1), scalar("2"))]);
    let sum = LinearCombination::zero().add(&sum);
    assert_eq!(terms(&sum), vec![(private(1), scalar("2"))]);
}

#[test]
fn the_value_of_a_sum_is_the_sum_of_the_values() {
    let values = vec![Scalar::one(), scalar("3"), scalar("4"), scalar("5")];
    let left = LinearCombination::zero().add_variable(private(1)).add_term(scalar("2"), private(2));
    let right =
        LinearCombination::zero().add_term(scalar("3"), private(2)).add_variable(private(3));
    let l = left.evaluate(&values);
    let r = right.evaluate(&values);
    assert_eq!(l, scalar("11"));
    assert_eq!(r, scalar("17"));
    assert_eq!(left.add(&right).evaluate(&values), l.add(r));
}

#[test]
fn evaluate_weighs_each_value_by_its_coefficient() {
    let values = vec![Scalar::one(), scalar("3"), scalar("27")];
    let lc = LinearCombination::zero()
        .add_variable(private(2))
        .add_variable(private(1))
        .add_term(scalar("5"), Variable::one());
    assert_eq!(lc.evaluate(&values), scalar("35"));
    let lc = LinearCombination::zero().add_term(scalar("10"), private(1)).add_term(minus_one(), private(2));
    assert_eq!(lc.evaluate(&values), scalar("3"));
}

#[test]
fn a_variable_without_a_value_counts_as_zero() {
    let values = vec![Scalar::one(), scalar("3")];
    let lc = LinearCombination::zero().add_variable(private(1)).add_term(scalar("9"), private(7));
    assert_eq!(lc.evaluate(&values), scalar("3"));
    assert_eq!(lc.evaluate(&Vec::new()), Scalar::zero());
}
