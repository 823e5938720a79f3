use schnorr_stark::{Affine, Group, Projective, ScalarField};

#[test]
fn projective_test_infinity() {
    let inf = Projective::infinity();
    assert!(inf.is_infinity());
    assert!(inf.is_on_curve());
}

#[test]
fn projective_test_generator_on_curve() {
    let g = Projective::generator();
    assert!(g.is_on_curve(), "Generator point is not on the curve");
    assert!(!g.is_infinity());
}

#[test]
fn projective_test_generator_pedersen_on_curve() {
    let g = Projective::generator_pedersen();
    assert!(
        g.is_on_curve(),
        "Pedersen generator point is not on the curve"
    );
    assert!(!g.is_infinity());
}

#[test]
fn test_conversion_affine_projective() {
    let point = Projective::generator();
    let affine_point = point.to_affine();

    let back = Projective::from_affine(&affine_point);
    assert_eq!(point, back);
}

#[test]
fn projective_test_point_addition_with_infinity() {
    let g = Projective::generator();
    let inf = Projective::infinity();

    assert_eq!(g.add(inf), g);
    assert_eq!(inf.add(g), g);
    assert_eq!(inf.add(inf), inf);
}

#[test]
fn projective_test_point_doubling() {
    let g = Projective::generator();
    let g2 = g.double();

    assert!(g2.is_on_curve(), "Doubled point is not on the curve");
    assert_eq!(g.add(g), g2);
}

#[test]
fn projective_test_point_negation() {
    let g = Projective::generator();
    let neg_g = g.negate();

    assert!(neg_g.is_on_curve());
    assert_eq!(g.add(neg_g), Projective::infinity());
}

#[test]
fn projective_test_scalar_multiplication() {
    let g = Projective::generator();
    let scalar = ScalarField::from_canonical_u64(5);
    let result = g.scalar_mul(&scalar);

    let expected = g.add(g).add(g).add(g).add(g);
    assert_eq!(result, expected);
    assert!(result.is_on_curve());
}

#[test]
fn projective_test_scalar_mul_zero() {
    let g = Projective::generator();
    let zero = ScalarField::zero();
    let result = g.scalar_mul(&zero);

    assert_eq!(result, Projective::infinity());
}

#[test]
fn projective_test_scalar_mul_one() {
    let g = Projective::generator();
    let one = ScalarField::one();
    let result = g.scalar_mul(&one);

    assert_eq!(result, g);
}

#[test]
fn projective_test_associativity() {
    let g = Projective::generator();
    let a = ScalarField::from_canonical_u64(3);
    let b = ScalarField::from_canonical_u64(5);

    let left = g.scalar_mul(&a.add(b));
    let right = g.scalar_mul(&a).add(g.scalar_mul(&b));

    assert_eq!(left, right);
}

#[test]
fn test_affine_projective_addition_consistency() {
    let g_affine = Affine::generator();
    let g2_affine = g_affine.double();
    let sum_affine = g_affine.add(g2_affine);

    let g_proj = Projective::from_affine(&g_affine);
    let g2_proj = Projective::from_affine(&g2_affine);
    let sum_proj = g_proj.add(g2_proj);

    assert_eq!(sum_proj.to_affine(), sum_affine);
}

#[test]
fn test_affine_projective_scalar_mul_consistency() {
    let scalar = ScalarField::from_canonical_u64(42);

    let affine_result = Affine::generator().scalar_mul(&scalar);
    let proj_result = Projective::generator().scalar_mul(&scalar);

    assert_eq!(proj_result.to_affine(), affine_result);
}

#[test]
fn projective_test_windowed_scalar_mul() {
    let g = Projective::generator();
    let scalar = ScalarField::from_canonical_u64(123456);

    let result1 = g.scalar_mul(&scalar);
    let result2 = g.scalar_mul_windowed(&scalar);

    assert_eq!(result1, result2);
    assert!(result1.is_on_curve());
}

#[test]
fn projective_test_mul_generator() {
    let scalar = ScalarField::from_canonical_u64(123456);
    let result = Projective::mul_generator(&scalar);
    let expected = Projective::generator().scalar_mul(&scalar);

    assert_eq!(result, expected);
    assert!(result.is_on_curve());
}

#[test]
fn projective_test_group_mul_generator_matches_scalar_mul() {
    let scalar = ScalarField::from_canonical_u64(424242);
    let result = <Projective as Group>::mul_generator(&scalar);
    let expected = Projective::generator().scalar_mul(&scalar);

    assert_eq!(result, expected);
}

#[test]
fn projective_test_multi_scalar_mul() {
    let g = Projective::generator();
    let h = Projective::generator_pedersen();

    let a = ScalarField::from_canonical_u64(7);
    let b = ScalarField::from_canonical_u64(11);

    let points = vec![g, h];
    let scalars = vec![a, b];

    let result = <Projective as Group>::multi_scalar_mul(points.as_slice(), scalars.as_slice());
    let expected = g.scalar_mul(&a).add(h.scalar_mul(&b));

    assert_eq!(result, expected);
    assert!(result.is_on_curve());
}

#[test]
fn projective_test_mul_u64() {
    let g = Projective::generator();
    let n = 42u64;

    let result1 = g.mul_u64(n);
    let result2 = g.scalar_mul(&ScalarField::from_canonical_u64(n));

    assert_eq!(result1, result2);
    assert!(result1.is_on_curve());
}

#[test]
fn projective_test_identity() {
    let id = <Projective as Group>::identity();
    assert!(id.is_infinity());
    assert_eq!(id, Projective::infinity());

    let g = Projective::generator();
    assert_eq!(g.add(id), g);
    assert_eq!(id.add(g), g);
}

#[test]
fn projective_test_group_properties() {
    let g = Projective::generator();

    assert_eq!(g.double(), g.add(g));

    let triple1 = g.add(g).add(g);
    let triple2 = g.mul_u64(3);
    assert_eq!(triple1, triple2);

    let h = g.mul_u64(5);
    let neg_h = h.negate();
    assert_eq!(h.add(neg_h), Projective::infinity());
}

#[test]
fn test_batch_normalize() {
    let g = Projective::generator();
    let points = vec![g, g.double(), g.mul_u64(3)];

    let normalized = Projective::batch_normalize(points.as_slice());

    assert_eq!(normalized.len(), 3);
    for (p, a) in points.iter().zip(normalized.iter()) {
        assert_eq!(p.to_affine(), *a);
    }
}
