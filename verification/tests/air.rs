use rand::rngs::StdRng;
use rand::{RngExt, SeedableRng};
use schnorr_stark::schnorr_air::{
    build_schnorr_trace, DS_ACC_INF_COL, DS_ACC_X_START, DS_S_BIT_COL, GS_PREP_COLS,
    SCHNORR_COLUMNS,
};
use schnorr_stark::{
    Affine, CircuitScalar, ScalarField, SchnorrAir, SchnorrError, SignatureWitness, SigningKey,
};

fn random_scalar(rng: &mut StdRng) -> ScalarField {
    loop {
        let mut bytes: [u8; 32] = rng.random();
        bytes[31] = 0;
        if let Some(s) = ScalarField::from_random_bytes(&bytes) {
            return s;
        }
    }
}

fn witness_and_publics(seed: u64, msg: &[u32]) -> (SignatureWitness, Vec<u32>) {
    let mut rng = StdRng::seed_from_u64(seed);
    let sk = SigningKey::from_scalar(random_scalar(&mut rng));
    let pk = sk.verifying_key();
    let nonce = random_scalar(&mut rng);
    let sig = sk.sign(nonce, msg).expect("sign");
    let witness = SignatureWitness::new(&sig, &pk, msg).expect("witness");
    let mut publics: Vec<u32> = Vec::new();
    publics.extend_from_slice(&witness.public_key.x);
    publics.extend_from_slice(&witness.public_key.y);
    publics.extend_from_slice(&witness.r.x);
    publics.extend_from_slice(&witness.r.y);
    (witness, publics)
}

#[test]
fn honest_trace_satisfies_all_constraints() {
    let msg = [1u32, 2, 3];
    let (witness, publics) = witness_and_publics(42, &msg);
    let trace = build_schnorr_trace(&witness).expect("trace");
    let height = trace.trace.len() / SCHNORR_COLUMNS;
    assert_eq!(height, 256);
    let air = SchnorrAir::new(height);
    let prep = air.preprocessed_trace();
    assert!(air.eval_trace(&trace.trace, &prep, &publics));
}

#[test]
fn mutated_trace_cell_breaks_a_constraint() {
    let msg = [1u32, 2, 3];
    let (witness, publics) = witness_and_publics(42, &msg);
    let trace = build_schnorr_trace(&witness).expect("trace");
    let height = trace.trace.len() / SCHNORR_COLUMNS;
    let air = SchnorrAir::new(height);
    let prep = air.preprocessed_trace();

    // an accumulator coordinate in the middle of the trace
    let mut mutated = trace.trace.clone();
    let idx = 7 * SCHNORR_COLUMNS + DS_ACC_X_START;
    mutated[idx] = (mutated[idx] + 1) % 2130706433;
    assert!(!air.eval_trace(&mutated, &prep, &publics));

    // a selector bit
    let mut mutated = trace.trace.clone();
    let idx = 3 * SCHNORR_COLUMNS + DS_S_BIT_COL;
    mutated[idx] = (mutated[idx] + 1) % 2130706433;
    assert!(!air.eval_trace(&mutated, &prep, &publics));

    // an accumulator coordinate on the first row (must be the identity)
    let mut mutated = trace.trace.clone();
    let idx = DS_ACC_X_START;
    mutated[idx] = (mutated[idx] + 1) % 2130706433;
    assert!(!air.eval_trace(&mutated, &prep, &publics));

    // the infinity flag of the first row
    let mut mutated = trace.trace.clone();
    let idx = DS_ACC_INF_COL;
    mutated[idx] = (mutated[idx] + 1) % 2130706433;
    assert!(!air.eval_trace(&mutated, &prep, &publics));

    // the public key binding on the first row
    let mut publics2 = publics.clone();
    publics2[0] = (publics2[0] + 1) % 2130706433;
    assert!(!air.eval_trace(&trace.trace, &prep, &publics2));

    // replacing R in the public inputs with another on-curve point
    let other = Affine::generator();
    let mut publics3 = publics.clone();
    for i in 0..8 {
        publics3[16 + i] = other.x.c[i];
        publics3[24 + i] = other.y.c[i];
    }
    assert!(!air.eval_trace(&trace.trace, &prep, &publics3));
}

#[test]
fn preprocessed_rows_are_generator_doublings() {
    let air = SchnorrAir::new(64);
    let prep = air.preprocessed_trace();
    assert_eq!(prep.len(), 64 * GS_PREP_COLS);
    let mut current = Affine::generator();
    for row in 0..64 {
        for k in 0..8 {
            assert_eq!(prep[row * GS_PREP_COLS + k], current.x.c[k]);
            assert_eq!(prep[row * GS_PREP_COLS + 8 + k], current.y.c[k]);
        }
        current = current.double();
    }
}

#[test]
fn preprocessed_trace_is_witness_independent() {
    let msg1 = [1u32, 2, 3];
    let msg2 = [9u32, 8, 7];
    let (w1, _) = witness_and_publics(42, &msg1);
    let (w2, _) = witness_and_publics(777, &msg2);
    let t1 = build_schnorr_trace(&w1).expect("trace");
    let t2 = build_schnorr_trace(&w2).expect("trace");
    let h1 = t1.trace.len() / SCHNORR_COLUMNS;
    let h2 = t2.trace.len() / SCHNORR_COLUMNS;
    assert_eq!(h1, h2);
    let p1 = SchnorrAir::new(h1).preprocessed_trace();
    let p2 = SchnorrAir::new(h2).preprocessed_trace();
    assert_eq!(p1, p2);
}

#[test]
fn canonical_roundtrip_preserves_values() {
    for x in [0u64, 1, 2, 41, 123456789, u64::MAX] {
        let s = ScalarField::from_canonical_u64(x);
        let back = s.to_canonical_u64_vec();
        assert_eq!(back, [x, 0, 0, 0]);
    }
}

#[test]
fn circuit_scalar_roundtrip_preserves_values() {
    let mut rng = StdRng::seed_from_u64(7);
    for _ in 0..4 {
        let s = random_scalar(&mut rng);
        let c = CircuitScalar::from_scalar_field(s);
        for limb in c.limbs {
            assert!(limb < (1 << 28));
        }
        assert_eq!(c.to_scalar_field(), s);
    }
}

#[test]
fn scalar_mul_by_group_order_gives_identity() {
    // the group order is q; a scalar holding q reduces to zero
    let q_minus_1 = [
        0xf2154ff8a2e94d80u64,
        0xf85ccc2efc3068fa,
        0x40f5f26a5ae1748f,
        0x00f06e44682c2aa4,
    ];
    let mut bytes = [0u8; 32];
    for (i, limb) in q_minus_1.iter().enumerate() {
        bytes[8 * i..8 * i + 8].copy_from_slice(&limb.to_le_bytes());
    }
    let qm1 = ScalarField::from_random_bytes(&bytes).expect("canonical");
    let q_scalar = qm1.add(ScalarField::one());
    assert!(q_scalar.is_zero());
    let g = Affine::generator();
    assert_eq!(g.scalar_mul(&q_scalar), Affine::infinity());
}

#[test]
fn double_scalar_mul_matches_sum_of_products() {
    let mut rng = StdRng::seed_from_u64(5);
    let a = random_scalar(&mut rng);
    let b = random_scalar(&mut rng);
    let p = Affine::generator().scalar_mul(&random_scalar(&mut rng));

    let fast = Affine::double_scalar_mul_basepoint(&a, &b, &p);
    let slow = Affine::mul_generator(&a).add(p.scalar_mul(&b));
    assert_eq!(fast, slow);
    assert!(fast.is_on_curve());
}

#[test]
fn sampling_rejects_values_at_or_above_the_order() {
    let all_ones = [0xffu8; 32];
    assert!(ScalarField::from_random_bytes(&all_ones).is_none());
    let zero = [0u8; 32];
    let s = ScalarField::from_random_bytes(&zero).expect("zero is canonical");
    assert!(s.is_zero());
}

#[test]
fn verify_rejects_infinity_commitment() {
    let mut rng = StdRng::seed_from_u64(42);
    let sk = SigningKey::from_scalar(random_scalar(&mut rng));
    let pk = sk.verifying_key();
    let msg = [1u32, 2, 3];
    let nonce = random_scalar(&mut rng);
    let mut sig = sk.sign(nonce, &msg).expect("sign");
    sig.r = Affine::infinity();
    assert_eq!(pk.verify(&msg, &sig), Err(SchnorrError::InvalidPoint));
}

#[test]
fn tampering_with_signature_scalar_fails_verification() {
    let mut rng = StdRng::seed_from_u64(42);
    let sk = SigningKey::from_scalar(random_scalar(&mut rng));
    let pk = sk.verifying_key();
    let msg = [1u32, 2, 3];
    let nonce = random_scalar(&mut rng);
    let mut sig = sk.sign(nonce, &msg).expect("sign");
    sig.s = sig.s.add(ScalarField::one());
    assert!(!pk.verify(&msg, &sig).expect("verify"));
}

#[test]
fn tampering_with_commitment_fails_verification() {
    let mut rng = StdRng::seed_from_u64(42);
    let sk = SigningKey::from_scalar(random_scalar(&mut rng));
    let pk = sk.verifying_key();
    let msg = [1u32, 2, 3];
    let nonce = random_scalar(&mut rng);
    let mut sig = sk.sign(nonce, &msg).expect("sign");
    sig.r = sig.r.add(Affine::generator());
    assert!(!pk.verify(&msg, &sig).expect("verify"));
}

#[test]
fn challenge_is_deterministic() {
    let mut rng = StdRng::seed_from_u64(9);
    let sk = SigningKey::from_scalar(random_scalar(&mut rng));
    let pk = sk.verifying_key();
    let r = Affine::generator();
    let msg = [5u32, 6];
    let e1 = schnorr_stark::signatures::hash_challenge(&r, &pk.point, &msg).expect("hash");
    let e2 = schnorr_stark::signatures::hash_challenge(&r, &pk.point, &msg).expect("hash");
    assert_eq!(e1, e2);
}

#[test]
fn fp8_inverse_really_inverts() {
    let g = Affine::generator();
    let inv = schnorr_stark::basefield::fp8_inverse(&g.x);
    let prod = schnorr_stark::basefield::fp8_mul(&g.x, &inv);
    assert_eq!(prod, schnorr_stark::Fp8::one());
}

#[test]
fn trace_builder_reports_dimensions() {
    let msg = [1u32, 2, 3];
    let (witness, _) = witness_and_publics(11, &msg);
    let trace = build_schnorr_trace(&witness).expect("trace");
    assert_eq!(trace.trace.len() % SCHNORR_COLUMNS, 0);
    let height = trace.trace.len() / SCHNORR_COLUMNS;
    assert!(height.is_power_of_two());
}
