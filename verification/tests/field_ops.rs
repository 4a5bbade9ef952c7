use sumcheck::field::{FieldConfig, FieldElement, FIELD_MODULUS};

fn felt(x: u64) -> FieldElement {
    FieldElement::from_u64(x)
}

#[test]
fn test_addition() {
    let el_1 = felt(3);
    let el_2 = felt(6);
    assert_eq!(el_1.add(el_2), felt(9));
    assert_eq!(el_1.add(el_2).add(el_2), felt(15));
}

#[test]
fn test_subtraction() {
    let el_1 = felt(3);
    let el_2 = felt(6);
    assert_eq!(el_1.sub(el_2), felt(FIELD_MODULUS - 3));
}

#[test]
fn test_multiplication_and_pow() {
    assert_eq!(felt(6).mul(felt(7)), felt(42));
    assert_eq!(felt(2).pow(10), felt(1024));
    assert_eq!(felt(5).pow(0), felt(1));
    assert_eq!(felt(0).mul(felt(9)), felt(0));
}

#[test]
fn test_inverse_and_division() {
    assert_eq!(felt(1).inv(), felt(1));
    assert_eq!(felt(3).mul(felt(3).inv()), felt(1));
    assert_eq!(felt(6).div(felt(3)), felt(2));
    assert_eq!(felt(1).div(felt(FIELD_MODULUS - 1)), felt(FIELD_MODULUS - 1));
}

#[test]
fn test_modulus_reduction() {
    assert_eq!(felt(FIELD_MODULUS), felt(0));
    assert_eq!(felt(FIELD_MODULUS - 1).add(felt(1)), felt(0));
    assert_eq!(FieldConfig::modulus(), FIELD_MODULUS);
}
