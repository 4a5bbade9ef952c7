use sumcheck::field::FieldElement;
use sumcheck::polynomial::MLPolynomial;
use sumcheck::protocol::checker::Verifier;
use sumcheck::protocol::prover::Prover;
use sumcheck::protocol::rejection::RejectError;
use sumcheck::protocol::setup_protocol;

fn felt(x: u64) -> FieldElement {
    FieldElement::from_u64(x)
}

#[test]
fn test_evaluate_intermediate() {
    let poly = vec![MLPolynomial::new(
        2,
        Vec::from([
            (felt(1), vec![(0, 1)]),
            (felt(1), vec![(1, 1)]),
            (felt(7), vec![(0, 1), (1, 1)]),
            (felt(42), vec![]),
        ]),
    )];

    let (_, claimed_sum, prover_state, verifier_state) = setup_protocol(&poly);

    assert_eq!(claimed_sum, felt(179));
    assert_eq!(verifier_state.running_eval, claimed_sum);

    let (poly_descr, _) = Prover::round_phase_1(prover_state);
    let expected = vec![felt(85), felt(94)];
    assert_eq!(poly_descr, expected);
    let evaluation = Verifier::evaluate_intermediate(&poly_descr);
    assert_eq!(evaluation, verifier_state.running_eval);
    let _ = Verifier::round(verifier_state, poly_descr);
}

#[test]
fn test_round_rejects_inconsistent_message() {
    let poly = vec![MLPolynomial::new(
        1,
        Vec::from([(felt(2), vec![(0, 1)]), (felt(5), vec![])]),
    )];
    // The true sum over {0,1} is 5 + 7 = 12; initialize with a wrong target.
    let verifier_state = Verifier::initialize(&poly, felt(11));
    let (prover_claim, prover_state) = Prover::claim_sum(&poly);
    assert_eq!(prover_claim, felt(12));
    let (poly_descr, _) = Prover::round_phase_1(prover_state);
    let result = Verifier::round(verifier_state, poly_descr);
    assert!(result.is_err());
}

#[test]
fn test_round_accepts_consistent_message() {
    let poly = vec![MLPolynomial::new(
        1,
        Vec::from([(felt(2), vec![(0, 1)]), (felt(5), vec![])]),
    )];
    let (claimed_sum, prover_state) = Prover::claim_sum(&poly);
    let verifier_state = Verifier::initialize(&poly, claimed_sum);
    let (poly_descr, _) = Prover::round_phase_1(prover_state);
    let result = Verifier::round(verifier_state, poly_descr);
    assert!(result.is_ok());
    let (_, new_state) = result.ok().unwrap();
    assert_eq!(new_state.last_round, 1);
    assert_eq!(new_state.randomness.len(), 1);
}

#[test]
fn test_reject_error_carries_reason() {
    let err = RejectError::new("Rejecting the Prover's claim!");
    assert_eq!(err.details(), "Rejecting the Prover's claim!");
}

#[test]
fn test_lagrange_reconstruction_at_nodes() {
    // Points of the degree-1 polynomial 85 + 9x: evaluating the
    // interpolation at the nodes returns the tabulated values.
    let descr = vec![felt(85), felt(94)];
    assert_eq!(Verifier::evaluate_at_random_point(&descr, felt(0)), felt(85));
    assert_eq!(Verifier::evaluate_at_random_point(&descr, felt(1)), felt(94));
    // And in between it follows the line: 85 + 9 * 5 = 130.
    assert_eq!(Verifier::evaluate_at_random_point(&descr, felt(5)), felt(130));
}

#[test]
fn test_lagrange_reconstruction_quadratic() {
    // Points of x^2 at 0, 1, 2; its interpolation at 5 is 25.
    let descr = vec![felt(0), felt(1), felt(4)];
    assert_eq!(Verifier::evaluate_at_random_point(&descr, felt(5)), felt(25));
}
