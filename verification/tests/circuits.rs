//! The two relations: what their synthesis records in each mode.

use r1cs_circuits::circuit::Circuit;
use r1cs_circuits::cube::CubeDemo;
use r1cs_circuits::driver::{synthesize, synthesize_setup, synthesize_witness};
use r1cs_circuits::error::SynthesisError;
use r1cs_circuits::field::Scalar;
use r1cs_circuits::lc::LinearCombination;
use r1cs_circuits::multiply::MultiplyDemo;
use r1cs_circuits::system::{Allocation, ConstraintSystem, Mode};
use r1cs_circuits::variable::{Variable, Visibility};

type Terms = Vec<(Variable, Scalar)>;

fn scalar(s: &str) -> Scalar {
    Scalar::from_str(s).unwrap()
}

fn private(index: usize) -> Variable {
    Variable { index, visibility: Visibility::Private }
}

fn public(index: usize) -> Variable {
    Variable { index, visibility: Visibility::Public }
}

fn slot(label: &'static str, visibility: Visibility) -> Allocation {
    Allocation { label, visibility }
}

fn terms(lc: &LinearCombination) -> Terms {
    (0..lc.len()).map(|i| lc.term(i)).collect()
}

fn allocations(cs: &ConstraintSystem) -> Vec<Allocation> {
    (0..cs.num_allocations()).map(|i| cs.allocation(i)).collect()
}

fn values(cs: &ConstraintSystem) -> Vec<Option<Scalar>> {
    (0..cs.num_allocations()).map(|i| cs.value(i)).collect()
}

fn constraints(cs: &ConstraintSystem) -> Vec<(&'static str, Terms, Terms, Terms)> {
    (0..cs.num_constraints())
        .map(|i| {
            let c = cs.constraint(i);
            (c.label(), terms(c.a()), terms(c.b()), terms(c.c()))
        })
        .collect()
}

fn cube_allocations() -> Vec<Allocation> {
    vec![
        slot("ONE", Visibility::Public),
        slot("x", Visibility::Private),
        slot("tmp_1", Visibility::Private),
        slot("x_cubed", Visibility::Private),
        slot("out", Visibility::Public),
    ]
}

fn cube_constraints() -> Vec<(&'static str, Terms, Terms, Terms)> {
    let one = Scalar::one();
    vec![
        ("tmp_1", vec![(private(1), one)], vec![(private(1), one)], vec![(private(2), one)]),
        ("x_cubed", vec![(private(2), one)], vec![(private(1), one)], vec![(private(3), one)]),
        (
            "out",
            vec![(private(3), one), (private(1), one), (public(0), scalar("5"))],
            vec![(public(0), one)],
            vec![(public(4), one)],
        ),
    ]
}

fn multiply_allocations() -> Vec<Allocation> {
    vec![
        slot("ONE", Visibility::Public),
        slot("a", Visibility::Private),
        slot("b", Visibility::Private),
        slot("c", Visibility::Public),
    ]
}

fn multiply_constraints() -> Vec<(&'static str, Terms, Terms, Terms)> {
    let one = Scalar::one();
    vec![("mult", vec![(private(1), one)], vec![(private(2), one)], vec![(public(3), one)])]
}

fn product(a: &str, b: &str, c: &str) -> MultiplyDemo {
    MultiplyDemo { a: Scalar::from_str(a), b: Scalar::from_str(b), c: Scalar::from_str(c) }
}

#[test]
fn cube_setup_records_the_flattened_structure() {
    let cs = synthesize_setup(CubeDemo { x: None });
    assert_eq!(cs.mode(), Mode::Setup);
    assert_eq!(allocations(&cs), cube_allocations());
    assert_eq!(constraints(&cs), cube_constraints());
    assert_eq!(values(&cs), vec![None; 5]);
    assert_eq!(cs.public_inputs(), None);
}

#[test]
fn cube_setup_does_not_depend_on_the_value() {
    let cs = synthesize_setup(CubeDemo { x: Scalar::from_str("3") });
    assert_eq!(cs.mode(), Mode::Setup);
    assert_eq!(allocations(&cs), cube_allocations());
    assert_eq!(constraints(&cs), cube_constraints());
    assert_eq!(values(&cs), vec![None; 5]);
}

#[test]
fn cube_witness_of_three_is_three_nine_twenty_seven_thirty_five() {
    let cs = synthesize_witness(CubeDemo { x: Scalar::from_str("3") }).unwrap();
    assert_eq!(cs.mode(), Mode::Witness);
    assert_eq!(
        values(&cs),
        vec![
            Some(Scalar::one()),
            Some(scalar("3")),
            Some(scalar("9")),
            Some(scalar("27")),
            Some(scalar("35")),
        ]
    );
    assert_eq!(cs.public_inputs(), Some(vec![scalar("35")]));
    assert!(cs.is_satisfied());
}

#[test]
fn cube_witness_has_the_structure_of_the_setup() {
    let setup = synthesize_setup(CubeDemo { x: None });
    for x in ["0", "1", "3", "123456789", "52435875175126190479447740508185965837690552500527637822603658699938581184512"] {
        let witness = synthesize_witness(CubeDemo { x: Scalar::from_str(x) }).unwrap();
        assert_eq!(allocations(&witness), allocations(&setup));
        assert_eq!(constraints(&witness), constraints(&setup));
        assert!(witness.is_satisfied());
    }
}

#[test]
fn cube_scenario_thirty_five_is_accepted_and_thirty_four_is_not() {
    let cs = synthesize_witness(CubeDemo { x: Scalar::from_str("3") }).unwrap();
    assert_eq!(cs.verify(&[scalar("35")]), Ok(true));
    assert_eq!(cs.verify(&[scalar("34")]), Ok(false));
    assert_eq!(cs.verify(&[scalar("3")]), Ok(false));
    assert_eq!(cs.verify(&[]), Err(SynthesisError::StructuralMismatch));
    assert_eq!(cs.verify(&[scalar("35"), scalar("35")]), Err(SynthesisError::StructuralMismatch));
}

#[test]
fn cube_output_wraps_around_the_field_order() {
    // x = -1: x^3 + x + 5 = 3.
    let x = "52435875175126190479447740508185965837690552500527637822603658699938581184512";
    let cs = synthesize_witness(CubeDemo { x: Scalar::from_str(x) }).unwrap();
    assert_eq!(cs.value(2), Some(scalar("1")));
    assert_eq!(cs.value(3), Some(scalar(x)));
    assert_eq!(cs.public_inputs(), Some(vec![scalar("3")]));
    assert_eq!(cs.verify(&[scalar("3")]), Ok(true));
}

#[test]
fn cube_output_at_zero_is_the_constant() {
    let cs = synthesize_witness(CubeDemo { x: Scalar::from_str("0") }).unwrap();
    assert_eq!(cs.public_inputs(), Some(vec![scalar("5")]));
    assert!(cs.is_satisfied());
}

#[test]
fn cube_witness_pass_without_the_value_fails() {
    let r = synthesize_witness(CubeDemo { x: None });
    assert_eq!(r.err(), Some(SynthesisError::AssignmentMissing));
    let mut cs = ConstraintSystem::new(Mode::Witness);
    assert_eq!(CubeDemo { x: None }.synthesize(&mut cs), Err(SynthesisError::AssignmentMissing));
    assert_eq!(cs.num_allocations(), 1);
    assert_eq!(cs.num_constraints(), 0);
}

#[test]
fn multiply_setup_records_one_constraint() {
    let cs = synthesize_setup(MultiplyDemo { a: None, b: None, c: None });
    assert_eq!(cs.mode(), Mode::Setup);
    assert_eq!(allocations(&cs), multiply_allocations());
    assert_eq!(constraints(&cs), multiply_constraints());
    assert_eq!(values(&cs), vec![None; 4]);
}

#[test]
fn multiply_setup_does_not_depend_on_the_values() {
    let partly = MultiplyDemo { a: None, b: Scalar::from_str("3"), c: Scalar::from_str("21") };
    for circuit in [partly, product("7", "3", "21"), product("7", "3", "20")] {
        let cs = synthesize_setup(circuit);
        assert_eq!(allocations(&cs), multiply_allocations());
        assert_eq!(constraints(&cs), multiply_constraints());
        assert_eq!(values(&cs), vec![None; 4]);
    }
}

#[test]
fn multiply_witness_records_the_three_values() {
    let cs = synthesize_witness(product("7", "3", "21")).unwrap();
    assert_eq!(allocations(&cs), multiply_allocations());
    assert_eq!(constraints(&cs), multiply_constraints());
    assert_eq!(
        values(&cs),
        vec![Some(Scalar::one()), Some(scalar("7")), Some(scalar("3")), Some(scalar("21"))]
    );
    assert_eq!(cs.public_inputs(), Some(vec![scalar("21")]));
    assert!(cs.is_satisfied());
}

#[test]
fn multiply_scenario_twenty_one_is_accepted_and_twenty_is_not() {
    let cs = synthesize_witness(product("7", "3", "21")).unwrap();
    assert_eq!(cs.verify(&[scalar("21")]), Ok(true));
    assert_eq!(cs.verify(&[scalar("20")]), Ok(false));
    assert_eq!(cs.verify(&[]), Err(SynthesisError::StructuralMismatch));
    assert_eq!(cs.verify(&[scalar("7"), scalar("3"), scalar("21")]), Err(SynthesisError::StructuralMismatch));
}

#[test]
fn multiply_false_product_is_recorded_and_never_accepted() {
    let cs = synthesize_witness(product("7", "3", "20")).unwrap();
    assert_eq!(cs.public_inputs(), Some(vec![scalar("20")]));
    assert!(!cs.is_satisfied());
    assert_eq!(cs.verify(&[scalar("20")]), Ok(false));
    assert_eq!(cs.verify(&[scalar("21")]), Ok(false));
}

#[test]
fn multiply_witness_pass_stops_at_the_first_missing_value() {
    let mut cs = ConstraintSystem::new(Mode::Witness);
    let circuit = MultiplyDemo { a: None, b: Scalar::from_str("3"), c: Scalar::from_str("21") };
    assert_eq!(circuit.synthesize(&mut cs), Err(SynthesisError::AssignmentMissing));
    assert_eq!(allocations(&cs), multiply_allocations()[..1].to_vec());
    assert_eq!(cs.num_constraints(), 0);

    let mut cs = ConstraintSystem::new(Mode::Witness);
    let circuit = MultiplyDemo { a: Scalar::from_str("7"), b: None, c: Scalar::from_str("21") };
    assert_eq!(circuit.synthesize(&mut cs), Err(SynthesisError::AssignmentMissing));
    assert_eq!(allocations(&cs), multiply_allocations()[..2].to_vec());
    assert_eq!(values(&cs), vec![Some(Scalar::one()), Some(scalar("7"))]);
    assert_eq!(cs.num_constraints(), 0);

    let mut cs = ConstraintSystem::new(Mode::Witness);
    let circuit = MultiplyDemo { a: Scalar::from_str("7"), b: Scalar::from_str("3"), c: None };
    assert_eq!(circuit.synthesize(&mut cs), Err(SynthesisError::AssignmentMissing));
    assert_eq!(allocations(&cs), multiply_allocations()[..3].to_vec());
    assert_eq!(values(&cs), vec![Some(Scalar::one()), Some(scalar("7")), Some(scalar("3"))]);
    assert_eq!(cs.num_constraints(), 0);

    let r = synthesize_witness(MultiplyDemo { a: None, b: None, c: None });
    assert_eq!(r.err(), Some(SynthesisError::AssignmentMissing));
}

#[test]
fn synthesize_takes_the_witness_pass_where_it_can() {
    let cs = synthesize(product("7", "3", "21"));
    assert_eq!(cs.mode(), Mode::Witness);
    assert_eq!(cs.public_inputs(), Some(vec![scalar("21")]));
    let cs = synthesize(CubeDemo { x: Scalar::from_str("3") });
    assert_eq!(cs.mode(), Mode::Witness);
    assert_eq!(cs.public_inputs(), Some(vec![scalar("35")]));
}

#[test]
fn synthesize_falls_back_to_the_setup_pass() {
    let cs = synthesize(MultiplyDemo { a: None, b: Scalar::from_str("3"), c: Scalar::from_str("21") });
    assert_eq!(cs.mode(), Mode::Setup);
    assert_eq!(allocations(&cs), multiply_allocations());
    assert_eq!(constraints(&cs), multiply_constraints());
    let cs = synthesize(CubeDemo { x: None });
    assert_eq!(cs.mode(), Mode::Setup);
    assert_eq!(allocations(&cs), cube_allocations());
    assert_eq!(constraints(&cs), cube_constraints());
}

#[test]
fn circuits_compose_in_one_system() {
    let mut cs = ConstraintSystem::new(Mode::Witness);
    assert_eq!(CubeDemo { x: Scalar::from_str("3") }.synthesize(&mut cs), Ok(()));
    assert_eq!(product("5", "7", "35").synthesize(&mut cs), Ok(()));
    assert_eq!(cs.num_allocations(), 8);
    assert_eq!(cs.num_constraints(), 4);
    let last = cs.constraint(3);
    assert_eq!(terms(last.a()), vec![(private(5), Scalar::one())]);
    assert_eq!(terms(last.b()), vec![(private(6), Scalar::one())]);
    assert_eq!(terms(last.c()), vec![(public(7), Scalar::one())]);
    assert_eq!(cs.public_inputs(), Some(vec![scalar("35"), scalar("35")]));
    assert!(cs.is_satisfied());
    assert_eq!(cs.verify(&[scalar("35"), scalar("35")]), Ok(true));

    let mut cs = ConstraintSystem::new(Mode::Witness);
    assert_eq!(product("2", "4", "8").synthesize(&mut cs), Ok(()));
    assert_eq!(CubeDemo { x: Scalar::from_str("3") }.synthesize(&mut cs), Ok(()));
    assert_eq!(cs.public_inputs(), Some(vec![scalar("8"), scalar("35")]));
    assert_eq!(cs.verify(&[scalar("8"), scalar("35")]), Ok(true));
    assert_eq!(cs.verify(&[scalar("35"), scalar("8")]), Ok(false));
    let first = cs.constraint(1);
    assert_eq!(terms(first.a()), vec![(private(4), Scalar::one())]);
    assert_eq!(terms(first.c()), vec![(private(5), Scalar::one())]);
}

#[test]
fn a_false_product_spoils_the_whole_system() {
    let mut cs = ConstraintSystem::new(Mode::Witness);
    assert_eq!(CubeDemo { x: Scalar::from_str("3") }.synthesize(&mut cs), Ok(()));
    assert!(cs.is_satisfied());
    assert_eq!(product("5", "7", "36").synthesize(&mut cs), Ok(()));
    assert!(!cs.is_satisfied());
    assert_eq!(cs.verify(&[scalar("35"), scalar("36")]), Ok(false));
}
