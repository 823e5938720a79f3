//! Witness data for the signature verification trace.

use vstd::prelude::*;

verus! {

use crate::errors::SchnorrError;
use crate::keys::VerifyingKey;
use crate::point_ops::{cp_wf, cpv, CircuitPoint};
use crate::scalar_arithmetic::{cs_val, cs_wf, CircuitScalar};
use crate::scalarfield::{mont_val, sf_wf};
use crate::signatures::{challenge_val_v, hash_challenge, Signature, HASH_P};
use crate::affine::{pt_wf, pv};

/// All the values the trace builder needs to prove one signature: the
/// signature parts, the public key, the message, and the precomputed
/// Fiat-Shamir challenge.
#[derive(Clone, Debug)]
pub struct SignatureWitness {
    /// The signature commitment point `R`.
    pub r: CircuitPoint,
    /// The signature scalar `s`, in circuit limbs.
    pub s: CircuitScalar,
    /// The public verifying key.
    pub public_key: CircuitPoint,
    /// The message, as canonical hash-field elements.
    pub message: Vec<u32>,
    /// The challenge `e = H(R || pk || msg)`, in circuit limbs.
    pub challenge: CircuitScalar,
}

impl SignatureWitness {
    /// Build a witness from a signature, a public key, and a message: the
    /// challenge is recomputed from them. Fails exactly when the
    /// commitment or the key is the point at infinity.
    pub fn new(signature: &Signature, public_key: &VerifyingKey, message: &[u32]) -> (r: Result<
        SignatureWitness,
        SchnorrError,
    >)
        requires
            pt_wf(signature.r),
            sf_wf(signature.s),
            pt_wf(public_key.point),
            forall|i: int| 0 <= i < message@.len() ==> message@[i] < HASH_P,
            message@.len() <= usize::MAX - 32,
        ensures
            r.is_ok() <==> (!pv(signature.r).inf && !pv(public_key.point).inf),
            r matches Ok(w) ==> {
                &&& cp_wf(w.r)
                &&& cs_wf(w.s)
                &&& cp_wf(w.public_key)
                &&& cs_wf(w.challenge)
                &&& cpv(w.r) == pv(signature.r)
                &&& cpv(w.public_key) == pv(public_key.point)
                &&& cs_val(w.s.limbs) == mont_val(signature.s)
                &&& cs_val(w.challenge.limbs) == challenge_val_v(
                    pv(signature.r),
                    pv(public_key.point),
                    message@,
                )
                &&& w.message@ == message@
            },
            r matches Err(e) ==> e == SchnorrError::InvalidPoint,
    {
        let pk_point = public_key.as_affine();
        let challenge = hash_challenge(&signature.r, &pk_point, message);
        match challenge {
            Ok(ch) => {
                let mut msg: Vec<u32> = Vec::new();
                let mut i: usize = 0;
                while i < message.len()
                    invariant
                        i <= message@.len(),
                        msg@.len() == i,
                        forall|t: int| 0 <= t < i ==> msg@[t] == message@[t],
                    decreases message@.len() - i,
                {
                    msg.push(message[i]);
                    i += 1;
                }
                proof {
                    assert(msg@ =~= message@);
                }
                Ok(
                    SignatureWitness {
                        r: CircuitPoint::from_affine(&signature.r),
                        s: CircuitScalar::from_scalar_field(signature.s),
                        public_key: CircuitPoint::from_affine(&pk_point),
                        message: msg,
                        challenge: CircuitScalar::from_scalar_field(ch),
                    },
                )
            },
            Err(e) => Err(e),
        }
    }
}

} // verus!
