//! Signing and verifying keys.

use vstd::prelude::*;

verus! {

use crate::affine::{pt_wf, pv, Affine};
use crate::errors::SchnorrError;
use crate::msm::{dsm_v, gen_mul_v};
use crate::scalarfield::{modulus, mont_val, sf_wf, ScalarField};
use crate::signatures::{challenge_val_v, hash_challenge, Signature, HASH_P};

/// A secret signing key: a scalar of the curve's scalar field.
#[derive(Clone, Copy, Debug, PartialEq, Eq)]
pub struct SigningKey {
    /// The secret scalar.
    pub scalar: ScalarField,
}

/// A public verifying key: the generator times the secret scalar.
#[derive(Clone, Copy, Debug, PartialEq, Eq)]
pub struct VerifyingKey {
    /// The public curve point.
    pub point: Affine,
}

impl SigningKey {
    /// A signing key from its secret scalar.
    pub fn from_scalar(scalar: ScalarField) -> (r: SigningKey)
        requires
            sf_wf(scalar),
        ensures
            r.scalar == scalar,
    {
        SigningKey { scalar }
    }

    /// The public key `G * sk`.
    pub fn verifying_key(&self) -> (r: VerifyingKey)
        requires
            sf_wf(self.scalar),
        ensures
            pt_wf(r.point),
            pv(r.point) == gen_mul_v(mont_val(self.scalar)),
    {
        VerifyingKey { point: Affine::mul_generator(&self.scalar) }
    }

    /// Sign a message with an explicit nonce: `R = G * k`, the challenge
    /// `e = H(R || pk || msg)`, and `s = k + e * sk`. Fails exactly when
    /// the nonce commitment or the public key is the point at infinity.
    pub fn sign(&self, nonce: ScalarField, msg: &[u32]) -> (res: Result<Signature, SchnorrError>)
        requires
            sf_wf(self.scalar),
            sf_wf(nonce),
            forall|i: int| 0 <= i < msg@.len() ==> msg@[i] < HASH_P,
            msg@.len() <= usize::MAX - 32,
        ensures
            res.is_ok() <==> (!gen_mul_v(mont_val(nonce)).inf && !gen_mul_v(
                mont_val(self.scalar),
            ).inf),
            res matches Ok(sig) ==> {
                let e = challenge_val_v(
                    gen_mul_v(mont_val(nonce)),
                    gen_mul_v(mont_val(self.scalar)),
                    msg@,
                );
                &&& pt_wf(sig.r)
                &&& sf_wf(sig.s)
                &&& pv(sig.r) == gen_mul_v(mont_val(nonce))
                &&& mont_val(sig.s) == (mont_val(nonce) + (e * mont_val(self.scalar))
                    % modulus()) % modulus()
            },
            res matches Err(e) ==> e == SchnorrError::InvalidPoint,
    {
        let r = Affine::mul_generator(&nonce);
        let pk = self.verifying_key();
        let e = hash_challenge(&r, &pk.point, msg);
        match e {
            Ok(e) => {
                let s = nonce.add(e.mul(self.scalar));
                Ok(Signature { r, s })
            },
            Err(err) => Err(err),
        }
    }
}

impl VerifyingKey {
    /// The underlying curve point.
    pub fn as_affine(&self) -> (r: Affine)
        ensures
            r == self.point,
    {
        self.point
    }

    /// Verify a signature: recompute the challenge and check
    /// `G * s - pk * e == R`. Fails exactly when the key or the
    /// commitment is the point at infinity.
    pub fn verify(&self, msg: &[u32], sig: &Signature) -> (res: Result<bool, SchnorrError>)
        requires
            pt_wf(self.point),
            pt_wf(sig.r),
            sf_wf(sig.s),
            forall|i: int| 0 <= i < msg@.len() ==> msg@[i] < HASH_P,
            msg@.len() <= usize::MAX - 32,
        ensures
            res.is_ok() <==> (!pv(self.point).inf && !pv(sig.r).inf),
            res matches Ok(b) ==> {
                let e = challenge_val_v(pv(sig.r), pv(self.point), msg@);
                let lhs = dsm_v(mont_val(sig.s), (0 - e) % modulus(), pv(self.point));
                b <==> lhs == pv(sig.r)
            },
            res matches Err(e) ==> e == SchnorrError::InvalidPoint,
    {
        if self.point.is_infinity() || sig.r.is_infinity() {
            return Err(SchnorrError::InvalidPoint);
        }
        let e = hash_challenge(&sig.r, &self.point, msg);
        match e {
            Ok(e) => {
                let neg_e = e.neg();
                let lhs = Affine::double_scalar_mul_basepoint(&sig.s, &neg_e, &self.point);
                let b = lhs.equals(&sig.r);
                Ok(b)
            },
            Err(err) => Err(err),
        }
    }
}

} // verus!
