use sumcheck::field::FieldElement;
use sumcheck::polynomial::MLPolynomial;
use sumcheck::protocol::prover::{reduce_map, Prover};

fn felt(x: u64) -> FieldElement {
    FieldElement::from_u64(x)
}

#[test]
fn test_reduce_map() {
    let our_map = Vec::from([
        felt(67),
        felt(9),
        felt(28),
        felt(31),
        felt(93),
        felt(21),
        felt(72),
        felt(95),
    ]);
    let r = felt(83);
    let reduced = reduce_map(2, r, &our_map);
    let expected = Vec::from([felt(2225), felt(1005), felt(3680), felt(5343)]);

    assert!(reduced.eq(&expected));
}

#[test]
fn test_claimed_sum_1() {
    let p1 = MLPolynomial::new(2, Vec::from([(felt(1), vec![(0, 1)]), (felt(7), vec![])]));
    let p2 = MLPolynomial::new(
        2,
        Vec::from([(felt(2), vec![(0, 1)]), (felt(1), vec![(1, 1)])]),
    );
    let p3 = MLPolynomial::new(2, Vec::from([(felt(3), vec![(1, 1)])]));
    let multilinear_list = vec![p1, p2, p3];
    let (prover_claim, prover_state) = Prover::claim_sum(&multilinear_list);
    assert_eq!(prover_claim, felt(93));
    let (poly_descr, _) = Prover::round_phase_1(prover_state);
    let expected = Vec::from([felt(21), felt(72), felt(135), felt(210)]);
    assert_eq!(poly_descr, expected)
}

#[test]
fn test_claimed_sum_2() {
    let p1 = MLPolynomial::new(
        3,
        Vec::from([
            (felt(1), vec![(0, 1)]),
            (felt(1), vec![(1, 1)]),
            (felt(1), vec![(2, 1)]),
        ]),
    );
    let p2 = MLPolynomial::new(
        3,
        Vec::from([
            (felt(1), vec![(0, 1)]),
            (felt(1), vec![(1, 1)]),
            (felt(1), vec![(2, 1)]),
        ]),
    );
    let multilinear_list = vec![p1, p2];
    let (prover_claim, prover_state) = Prover::claim_sum(&multilinear_list);
    assert_eq!(prover_claim, felt(24));
    let (poly_descr, _) = Prover::round_phase_1(prover_state);
    let expected = Vec::from([felt(6), felt(18), felt(38)]);
    assert_eq!(poly_descr, expected)
}

#[test]
fn test_prover_is_deterministic() {
    let make_claim = || {
        vec![MLPolynomial::new(
            2,
            Vec::from([(felt(1), vec![(0, 1)]), (felt(7), vec![])]),
        )]
    };
    let (claim_a, state_a) = Prover::claim_sum(&make_claim());
    let (claim_b, state_b) = Prover::claim_sum(&make_claim());
    assert_eq!(claim_a, claim_b);
    let (msg_a, _) = Prover::round_phase_1(state_a);
    let (msg_b, _) = Prover::round_phase_1(state_b);
    assert_eq!(msg_a, msg_b);
}
