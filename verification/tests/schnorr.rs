use rand::rngs::StdRng;
use rand::{RngExt, SeedableRng};
use schnorr_stark::{ScalarField, SigningKey};

fn random_scalar(rng: &mut StdRng) -> ScalarField {
    loop {
        let mut bytes: [u8; 32] = rng.random();
        bytes[31] = 0;
        if let Some(s) = ScalarField::from_random_bytes(&bytes) {
            return s;
        }
    }
}

#[test]
fn test_sign_verify() {
    let mut rng = StdRng::seed_from_u64(42);
    let sk = SigningKey::from_scalar(random_scalar(&mut rng));
    let pk = sk.verifying_key();
    let msg = [1u32, 2, 3];

    let nonce = random_scalar(&mut rng);
    let sig = sk.sign(nonce, &msg).expect("sign");
    let ok = pk.verify(&msg, &sig).expect("verify");
    assert!(ok);
}

#[test]
fn test_verify_rejects_wrong_message() {
    let mut rng = StdRng::seed_from_u64(42);
    let sk = SigningKey::from_scalar(random_scalar(&mut rng));
    let pk = sk.verifying_key();
    let msg = [10u32, 11, 12];
    let nonce = random_scalar(&mut rng);
    let sig = sk.sign(nonce, &msg).expect("sign");

    let wrong_msg = [10u32, 11, 13];

    let ok = pk.verify(&wrong_msg, &sig).expect("verify");
    assert!(!ok);
}

#[test]
fn test_verify_rejects_wrong_key() {
    let mut rng = StdRng::seed_from_u64(42);
    let sk = SigningKey::from_scalar(random_scalar(&mut rng));
    let _pk = sk.verifying_key();
    let msg = [21u32, 22, 23];
    let nonce = random_scalar(&mut rng);
    let sig = sk.sign(nonce, &msg).expect("sign");

    let wrong_sk = SigningKey::from_scalar(random_scalar(&mut rng));
    let wrong_pk = wrong_sk.verifying_key();

    let ok = wrong_pk.verify(&msg, &sig).expect("verify");
    assert!(!ok);
}
