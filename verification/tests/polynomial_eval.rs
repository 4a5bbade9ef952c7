use sumcheck::field::FieldElement;
use sumcheck::polynomial::{
    evaluate_mvml_polynomial, evaluate_polynomial_on_hypercube, get_num_vars,
    usize_to_binary_vector, MLPolynomial,
};

fn felt(x: u64) -> FieldElement {
    FieldElement::from_u64(x)
}

fn zero() -> FieldElement {
    FieldElement::zero()
}

fn one() -> FieldElement {
    FieldElement::one()
}

#[test]
fn test_number_to_vector() {
    let point = usize_to_binary_vector(4829, 16);
    assert_eq!(point.len(), 16);

    let point = usize_to_binary_vector(4, 5);
    assert_eq!(point, vec![zero(), zero(), one(), zero(), zero()]);

    let point = usize_to_binary_vector(53, 6);
    assert_eq!(point, vec![one(), one(), zero(), one(), zero(), one()]);

    let num_vars: u32 = 10;
    let point = usize_to_binary_vector((1 << num_vars as usize) - 1, 11);
    assert_eq!(
        point,
        vec![
            zero(),
            one(),
            one(),
            one(),
            one(),
            one(),
            one(),
            one(),
            one(),
            one(),
            one(),
        ]
    );
}

#[test]
fn test_evaluate_polynomial() {
    let poly = MLPolynomial::new(
        3,
        vec![
            (felt(2), vec![(0, 3)]),
            (felt(7), vec![(0, 1), (2, 1)]),
            (felt(1), vec![(1, 1), (2, 1)]),
            (felt(5), vec![]),
        ],
    );

    let map = evaluate_polynomial_on_hypercube(&poly);
    let point: usize = 3;
    let some_point = vec![zero(), one(), one()];
    let value_from_map = map.get(point).unwrap();
    let value_from_poly = poly.evaluate(&some_point);
    assert_eq!(map.len(), 8);
    assert_eq!(some_point, usize_to_binary_vector(point, 3));
    assert_eq!(*value_from_map, value_from_poly)
}

#[test]
fn test_get_num_vars_cases() {
    let p1 = MLPolynomial::new(2, vec![(felt(1), vec![(0, 1)])]);
    let p2 = MLPolynomial::new(2, vec![(felt(5), vec![])]);
    assert_eq!(get_num_vars(&vec![p1, p2]), Some(2));

    let empty: Vec<MLPolynomial> = Vec::new();
    assert_eq!(get_num_vars(&empty), None);

    let q1 = MLPolynomial::new(2, vec![(felt(1), vec![(0, 1)])]);
    let q2 = MLPolynomial::new(3, vec![(felt(1), vec![(0, 1)])]);
    assert_eq!(get_num_vars(&vec![q1, q2]), None);
}

#[test]
fn test_well_formed_check() {
    let good = MLPolynomial::new(2, vec![(felt(1), vec![(1, 1)])]);
    assert!(good.is_well_formed());
    let bad = MLPolynomial::new(2, vec![(felt(1), vec![(2, 1)])]);
    assert!(!bad.is_well_formed());
}

#[test]
fn test_evaluate_product() {
    // (x0 + 7) * (2*x0 + x1) at (1, 1) is 8 * 3 = 24.
    let p1 = MLPolynomial::new(2, vec![(felt(1), vec![(0, 1)]), (felt(7), vec![])]);
    let p2 = MLPolynomial::new(2, vec![(felt(2), vec![(0, 1)]), (felt(1), vec![(1, 1)])]);
    let value = evaluate_mvml_polynomial(vec![p1, p2], &vec![one(), one()]);
    assert_eq!(value, felt(24));
}
