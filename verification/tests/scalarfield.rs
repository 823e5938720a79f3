use schnorr_stark::ScalarField;

#[test]
fn test_zero_one() {
    assert_eq!(
        ScalarField::zero().add(ScalarField::zero()),
        ScalarField::zero()
    );
    assert_eq!(ScalarField::one().mul(ScalarField::one()), ScalarField::one());
    assert_eq!(
        ScalarField::zero().mul(ScalarField::one()),
        ScalarField::zero()
    );
    assert_eq!(ScalarField::one().add(ScalarField::zero()), ScalarField::one());
}

#[test]
fn test_addition() {
    let a = ScalarField::from_canonical_u64(5);
    let b = ScalarField::from_canonical_u64(7);
    let c = a.add(b);
    assert_eq!(c, ScalarField::from_canonical_u64(12));
}

#[test]
fn test_subtraction() {
    let a = ScalarField::from_canonical_u64(10);
    let b = ScalarField::from_canonical_u64(3);
    let c = a.sub(b);
    assert_eq!(c, ScalarField::from_canonical_u64(7));
}

#[test]
fn test_multiplication() {
    let a = ScalarField::from_canonical_u64(6);
    let b = ScalarField::from_canonical_u64(7);
    let c = a.mul(b);
    assert_eq!(c, ScalarField::from_canonical_u64(42));
}

#[test]
fn test_negation() {
    let a = ScalarField::from_canonical_u64(5);
    let b = a.neg();
    assert_eq!(a.add(b), ScalarField::zero());
}

#[test]
fn test_inverse() {
    let a = ScalarField::from_canonical_u64(5);
    let a_inv = a.inverse();
    assert_eq!(a.mul(a_inv), ScalarField::one());
}
