use sumcheck::field::FieldElement;
use sumcheck::polynomial::MLPolynomial;
use sumcheck::protocol::checker::{Verifier, VerifierState};
use sumcheck::protocol::prover::Prover;
use sumcheck::protocol::{orchestrate_protocol, setup_protocol};

fn felt(x: u64) -> FieldElement {
    FieldElement::from_u64(x)
}

/// Basic test for a multilinear polynomial on 3 variables.
#[test]
fn test_protocol_3_variables() {
    let poly = vec![MLPolynomial::new(
        3,
        vec![
            (felt(2), vec![(0, 1)]),
            (felt(7), vec![(0, 1), (2, 1)]),
            (felt(1), vec![(1, 1), (2, 1)]),
            (felt(5), vec![]),
        ],
    )];
    let (num_vars, claimed_sum, prover_state, verifier_state) = setup_protocol(&poly);
    let transcript = orchestrate_protocol(num_vars, claimed_sum, prover_state, verifier_state);
    assert!(transcript.accept);
}

/// Failing test for polynomial on 3 variables, where the input is not given
/// as a product of multilinear polynomials.
#[test]
fn test_fail_3_variables() {
    // A polynomial of degree 2, not given as a product of multilinears. The
    // verifier accepts all the intermediate rounds, except the last check.
    let poly = vec![MLPolynomial::new(
        3,
        vec![
            (felt(2), vec![(0, 1)]),
            (felt(7), vec![(0, 2), (2, 1)]),
            (felt(1), vec![(1, 1), (2, 1)]),
            (felt(5), vec![]),
        ],
    )];
    let (num_vars, claimed_sum, prover_state, verifier_state) = setup_protocol(&poly);
    let transcript = orchestrate_protocol(num_vars, claimed_sum, prover_state, verifier_state);
    assert!(!transcript.accept);
}

/// Test for a multilinear polynomial on 6 variables.
#[test]
fn test_protocol_6_variables() {
    let poly = vec![MLPolynomial::new(
        6,
        vec![
            (felt(1), vec![(0, 1), (4, 1), (3, 1)]),
            (felt(83), vec![(0, 1), (3, 1), (2, 1)]),
            (felt(62), vec![(0, 1), (5, 1), (3, 1)]),
            (felt(84), vec![(2, 1), (4, 1), (3, 1)]),
        ],
    )];
    let (num_vars, claimed_sum, prover_state, verifier_state) = setup_protocol(&poly);
    let transcript = orchestrate_protocol(num_vars, claimed_sum, prover_state, verifier_state);
    assert!(transcript.accept);
}

/// Failing test for polynomial on 6 variables, where the input is not given
/// as a product of multilinear polynomials.
#[test]
fn test_fail_6_variables() {
    let poly = vec![MLPolynomial::new(
        6,
        vec![
            (felt(1), vec![(0, 1), (4, 1), (3, 1)]),
            (felt(83), vec![(0, 1), (3, 1), (2, 1)]),
            (felt(62), vec![(0, 1), (5, 1), (3, 4)]),
            (felt(84), vec![(2, 1), (4, 1), (3, 1)]),
        ],
    )];
    let (num_vars, claimed_sum, prover_state, verifier_state) = setup_protocol(&poly);
    let transcript = orchestrate_protocol(num_vars, claimed_sum, prover_state, verifier_state);
    assert!(!transcript.accept);
    assert_eq!(transcript._randomness.len(), 6)
}

/// Test for a multilinear polynomial on 12 variables.
#[test]
fn test_protocol_12_variables() {
    let poly = vec![MLPolynomial::new(
        12,
        vec![
            (felt(1), vec![(0, 1), (4, 1), (3, 1)]),
            (felt(83), vec![(0, 1), (3, 1), (2, 1)]),
            (felt(62), vec![(0, 1), (5, 1), (3, 1)]),
            (felt(84), vec![(2, 1), (4, 1), (3, 1)]),
        ],
    )];
    let (num_vars, claimed_sum, prover_state, verifier_state) = setup_protocol(&poly);
    let transcript = orchestrate_protocol(num_vars, claimed_sum, prover_state, verifier_state);
    assert!(transcript.accept);
}

/// Test for a univariate linear polynomial.
#[test]
fn test_protocol_univariate() {
    let poly = vec![MLPolynomial::new(
        1,
        vec![(felt(2), vec![(0, 1)]), (felt(5), vec![])],
    )];
    let (num_vars, claimed_sum, prover_state, verifier_state) = setup_protocol(&poly);
    let transcript = orchestrate_protocol(num_vars, claimed_sum, prover_state, verifier_state);
    assert!(transcript.accept);
    assert_eq!(transcript._randomness.len(), 1)
}

/// Failing test for a univariate linear polynomial, where the verifier
/// rejects at an intermediate round.
#[test]
fn test_fail_intermediate_check() {
    let poly = vec![MLPolynomial::new(
        1,
        vec![(felt(2), vec![(0, 1)]), (felt(5), vec![])],
    )];
    let (num_vars, claimed_sum, prover_state, verifier_state) = setup_protocol(&poly);
    let alt_verifier_state = VerifierState { running_eval: felt(0), ..verifier_state };
    let transcript = orchestrate_protocol(num_vars, claimed_sum, prover_state, alt_verifier_state);
    assert!(!transcript.accept);
    assert_eq!(transcript._randomness.len(), 0)
}

/// Test for a polynomial given as a product of multilinear polynomials.
#[test]
fn test_product_check() {
    let p1 = MLPolynomial::new(
        3,
        vec![
            (felt(1), vec![(0, 1)]),
            (felt(1), vec![(1, 1)]),
            (felt(1), vec![(2, 1)]),
        ],
    );
    let p2 = MLPolynomial::new(
        3,
        vec![
            (felt(1), vec![(0, 1)]),
            (felt(1), vec![(1, 1)]),
            (felt(1), vec![(2, 1)]),
        ],
    );
    let p3 = MLPolynomial::new(
        3,
        vec![
            (felt(1), vec![(0, 1)]),
            (felt(1), vec![(1, 1)]),
            (felt(1), vec![(2, 1)]),
        ],
    );
    let multilinear_list = vec![p1, p2, p3];
    let (num_vars, claimed_sum, prover_state, verifier_state) = setup_protocol(&multilinear_list);
    let transcript = orchestrate_protocol(num_vars, claimed_sum, prover_state, verifier_state);
    assert!(transcript.accept);
}

/// Failing test for a polynomial where one of the elements of the products
/// is not multilinear.
#[test]
fn test_fail_product_check() {
    let p1 = MLPolynomial::new(
        3,
        vec![
            (felt(1), vec![(0, 1)]),
            (felt(1), vec![(1, 1)]),
            (felt(1), vec![(2, 1)]),
        ],
    );
    let p2 = MLPolynomial::new(
        3,
        vec![
            (felt(1), vec![(0, 1)]),
            (felt(1), vec![(1, 1)]),
            (felt(1), vec![(2, 1)]),
        ],
    );
    let p3 = MLPolynomial::new(
        3,
        vec![
            (felt(1), vec![(0, 1)]),
            (felt(1), vec![(1, 4)]),
            (felt(1), vec![(2, 1)]),
        ],
    );
    let multilinear_list = vec![p1, p2, p3];
    let (num_vars, claimed_sum, prover_state, verifier_state) = setup_protocol(&multilinear_list);
    let transcript = orchestrate_protocol(num_vars, claimed_sum, prover_state, verifier_state);
    assert!(!transcript.accept);
}

/// Failing test for a polynomial where the claimed sum is not correct.
#[test]
fn test_fail_product_intermediate_check() {
    let p1 = MLPolynomial::new(
        3,
        vec![
            (felt(1), vec![(0, 1)]),
            (felt(1), vec![(1, 1)]),
            (felt(1), vec![(2, 1)]),
        ],
    );
    let p2 = MLPolynomial::new(
        3,
        vec![
            (felt(1), vec![(0, 1)]),
            (felt(1), vec![(1, 1)]),
            (felt(1), vec![(2, 1)]),
        ],
    );
    let p3 = MLPolynomial::new(
        3,
        vec![
            (felt(1), vec![(0, 1)]),
            (felt(1), vec![(1, 1)]),
            (felt(1), vec![(2, 1)]),
        ],
    );
    let multilinear_list = vec![p1, p2, p3];
    let (num_vars, claimed_sum, prover_state, verifier_state) = setup_protocol(&multilinear_list);
    let alt_verifier_state = VerifierState { running_eval: felt(0), ..verifier_state };
    let transcript = orchestrate_protocol(num_vars, claimed_sum, prover_state, alt_verifier_state);
    assert!(!transcript.accept);
    assert_eq!(transcript._randomness.len(), 0);
}

/// Single multilinear factor on 2 variables: `x0 + 7` sums to 30 over the
/// hypercube and the run accepts.
#[test]
fn test_single_factor_claim_is_30() {
    let poly = vec![MLPolynomial::new(
        2,
        vec![(felt(1), vec![(0, 1)]), (felt(7), vec![])],
    )];
    let (num_vars, claimed_sum, prover_state, verifier_state) = setup_protocol(&poly);
    assert_eq!(claimed_sum, felt(30));
    let transcript = orchestrate_protocol(num_vars, claimed_sum, prover_state, verifier_state);
    assert!(transcript.accept);
    assert_eq!(transcript._randomness.len(), 2);
}

/// Product of two multilinear factors on 2 variables: `(x0 + 7) * (2*x0 +
/// x1)` sums to 47, the first message reconstructs it, and the run accepts.
#[test]
fn test_two_factor_claim_is_47() {
    let p1 = MLPolynomial::new(2, vec![(felt(1), vec![(0, 1)]), (felt(7), vec![])]);
    let p2 = MLPolynomial::new(2, vec![(felt(2), vec![(0, 1)]), (felt(1), vec![(1, 1)])]);
    let poly = vec![p1, p2];
    let (claimed_sum, prover_state) = Prover::claim_sum(&poly);
    assert_eq!(claimed_sum, felt(47));
    let (message, _) = Prover::round_phase_1(prover_state);
    assert_eq!(message, vec![felt(7), felt(40), felt(81)]);
    assert_eq!(Verifier::evaluate_intermediate(&message), claimed_sum);

    let (num_vars, claimed_sum, prover_state, verifier_state) = setup_protocol(&poly);
    let transcript = orchestrate_protocol(num_vars, claimed_sum, prover_state, verifier_state);
    assert!(transcript.accept);
}
