use schnorr_stark::{Affine, Group, ScalarField};

#[test]
fn affine_test_infinity() {
    let inf = Affine::infinity();
    assert!(inf.is_infinity());
    assert!(inf.is_on_curve());
}

#[test]
fn affine_test_generator_on_curve() {
    let g = Affine::generator();
    assert!(g.is_on_curve(), "Generator point is not on the curve");
    assert!(!g.is_infinity());
}

#[test]
fn affine_test_generator_pedersen_on_curve() {
    let g = Affine::generator_pedersen();
    assert!(
        g.is_on_curve(),
        "Pedersen generator point is not on the curve"
    );
    assert!(!g.is_infinity());
}

#[test]
fn affine_test_point_addition_with_infinity() {
    let g = Affine::generator();
    let inf = Affine::infinity();

    assert_eq!(g.add(inf), g);
    assert_eq!(inf.add(g), g);
    assert_eq!(inf.add(inf), inf);
}

#[test]
fn affine_test_point_doubling() {
    let g = Affine::generator();
    let g2 = g.double();

    assert!(g2.is_on_curve(), "Doubled point is not on the curve");
    assert_eq!(g.add(g), g2);
}

#[test]
fn affine_test_point_negation() {
    let g = Affine::generator();
    let neg_g = g.negate();

    assert!(neg_g.is_on_curve());
    assert_eq!(g.add(neg_g), Affine::infinity());
}

#[test]
fn affine_test_scalar_multiplication() {
    let g = Affine::generator();
    let scalar = ScalarField::from_canonical_u64(5);
    let result = g.scalar_mul(&scalar);

    let expected = g.add(g).add(g).add(g).add(g);
    assert_eq!(result, expected);
    assert!(result.is_on_curve());
}

#[test]
fn affine_test_scalar_mul_zero() {
    let g = Affine::generator();
    let zero = ScalarField::zero();
    let result = g.scalar_mul(&zero);

    assert_eq!(result, Affine::infinity());
}

#[test]
fn affine_test_scalar_mul_one() {
    let g = Affine::generator();
    let one = ScalarField::one();
    let result = g.scalar_mul(&one);

    assert_eq!(result, g);
}

#[test]
fn affine_test_associativity() {
    let g = Affine::generator();
    let a = ScalarField::from_canonical_u64(3);
    let b = ScalarField::from_canonical_u64(5);

    let left = g.scalar_mul(&a.add(b));
    let right = g.scalar_mul(&a).add(g.scalar_mul(&b));

    assert_eq!(left, right);
}

#[test]
fn affine_test_windowed_scalar_mul() {
    let g = Affine::generator();
    let scalar = ScalarField::from_canonical_u64(123456);

    let result1 = g.scalar_mul(&scalar);
    let result2 = g.scalar_mul_windowed(&scalar);

    assert_eq!(result1, result2);
    assert!(result1.is_on_curve());
}

#[test]
fn affine_test_mul_generator() {
    let scalar = ScalarField::from_canonical_u64(123456);
    let result = Affine::mul_generator(&scalar);
    let expected = Affine::generator().scalar_mul(&scalar);

    assert_eq!(result, expected);
    assert!(result.is_on_curve());
}

#[test]
fn affine_test_group_mul_generator_matches_scalar_mul() {
    let scalar = ScalarField::from_canonical_u64(424242);
    let result = <Affine as Group>::mul_generator(&scalar);
    let expected = Affine::generator().scalar_mul(&scalar);

    assert_eq!(result, expected);
}

#[test]
fn affine_test_multi_scalar_mul() {
    let g = Affine::generator();
    let h = Affine::generator_pedersen();

    let a = ScalarField::from_canonical_u64(7);
    let b = ScalarField::from_canonical_u64(11);

    let points = vec![g, h];
    let scalars = vec![a, b];

    let result = <Affine as Group>::multi_scalar_mul(points.as_slice(), scalars.as_slice());
    let expected = g.scalar_mul(&a).add(h.scalar_mul(&b));

    assert_eq!(result, expected);
    assert!(result.is_on_curve());
}

#[test]
fn affine_test_mul_u64() {
    let g = Affine::generator();
    let n = 42u64;

    let result1 = g.mul_u64(n);
    let result2 = g.scalar_mul(&ScalarField::from_canonical_u64(n));

    assert_eq!(result1, result2);
    assert!(result1.is_on_curve());
}

#[test]
fn affine_test_identity() {
    let id = <Affine as Group>::identity();
    assert!(id.is_identity());
    assert_eq!(id, Affine::infinity());

    let g = Affine::generator();
    assert_eq!(g.add(id), g);
    assert_eq!(id.add(g), g);
}

#[test]
fn affine_test_group_properties() {
    let g = Affine::generator();

    assert_eq!(g.double(), g.add(g));

    let triple1 = g.add(g).add(g);
    let triple2 = g.mul_u64(3);
    assert_eq!(triple1, triple2);

    let h = g.mul_u64(5);
    let neg_h = h.negate();
    assert_eq!(h.add(neg_h), Affine::infinity());
}
