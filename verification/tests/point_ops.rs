use schnorr_stark::{scalar_to_bits, Affine, CircuitPoint, Projective, ScalarField};

#[test]
fn test_point_conversion() {
    let point = Projective::generator();
    let affine_point = point.to_affine();

    let circuit_point = CircuitPoint::from_affine(&affine_point);
    let recovered = circuit_point.to_affine();

    assert_eq!(affine_point, recovered);
}

#[test]
fn test_point_addition() {
    let p1 = Affine::generator();
    let p2_proj = Projective::generator().scalar_mul(&ScalarField::from_canonical_u64(2));
    let p2 = p2_proj.to_affine();

    let cp1 = CircuitPoint::from_affine(&p1);
    let cp2 = CircuitPoint::from_affine(&p2);

    let circuit_sum = cp1.add(&cp2);
    let expected_sum = Projective::from_affine(&p1)
        .add(Projective::from_affine(&p2))
        .to_affine();

    assert_eq!(circuit_sum.to_affine(), expected_sum);
}

#[test]
fn point_ops_test_point_doubling() {
    let point = Affine::generator();

    let cp = CircuitPoint::from_affine(&point);
    let doubled = cp.double();
    let expected = Projective::from_affine(&point)
        .add(Projective::from_affine(&point))
        .to_affine();

    assert_eq!(doubled.to_affine(), expected);
}

#[test]
fn point_ops_test_scalar_multiplication() {
    let point = Affine::generator();
    let scalar = ScalarField::from_canonical_u64(17);

    let cp = CircuitPoint::from_affine(&point);
    let bits = scalar_to_bits(&scalar);
    let result = cp.scalar_mul(bits.as_slice());

    let expected = Projective::from_affine(&point).scalar_mul(&scalar).to_affine();

    assert_eq!(result.to_affine(), expected);
}
