//! Signature values and the Fiat-Shamir challenge hash.
//!
//! The challenge is a padding-free sponge over the fixed width-16 Poseidon2
//! permutation of a 31-bit prime field; the permutation itself is an
//! outside primitive and is the one trusted call of this module.

use p3_baby_bear::{default_babybear_poseidon2_16, BabyBear};
use p3_field::PrimeCharacteristicRing;
use p3_field::PrimeField32;
use p3_symmetric::Permutation;
use vstd::prelude::*;

verus! {

use crate::affine::{pt_wf, pv, Affine, PointV};
use crate::errors::SchnorrError;
use crate::scalarfield::{mont_val, sf_wf, val4, ScalarField};

/// The 31-bit prime of the hash field.
pub const HASH_P: u32 = 2013265921;

/// A Schnorr signature: the commitment point `R` and the response scalar
/// `s`, satisfying `G * s == R + pk * e` for the challenge `e`.
#[derive(Clone, Copy, Debug, PartialEq, Eq)]
pub struct Signature {
    /// The commitment point `R = G * k` for the signing nonce `k`.
    pub r: Affine,
    /// The response scalar `s = k + e * sk`.
    pub s: ScalarField,
}

/// What the fixed width-16 Poseidon2 permutation returns on a state; it
/// depends on the state alone.
pub uninterp spec fn poseidon2_of(state: Seq<int>) -> Seq<int>;

/// Relies on `p3_baby_bear::default_babybear_poseidon2_16` and
/// `p3_symmetric::Permutation::permute_mut`: the width-16 Poseidon2
/// permutation with fixed round constants, a pure function of its input
/// state, returning canonical field values.
#[verifier::external_body]
fn poseidon2_permute(state: &[u32; 16]) -> (r: [u32; 16])
    requires
        forall|i: int| 0 <= i < 16 ==> state[i] < HASH_P,
    ensures
        forall|i: int| 0 <= i < 16 ==> r[i] < HASH_P,
        Seq::new(16, |i: int| r[i] as int) == poseidon2_of(Seq::new(16, |i: int| state[i] as int)),
{
    let perm = default_babybear_poseidon2_16();
    let mut s = [BabyBear::ZERO; 16];
    for i in 0..16 {
        s[i] = BabyBear::new(state[i]);
    }
    perm.permute_mut(&mut s);
    let mut out = [0u32; 16];
    for i in 0..16 {
        out[i] = s[i].as_canonical_u32();
    }
    out
}

/// One sponge step: the chunk overwrites the low rate cells, then the
/// state is permuted.
pub open spec fn absorb_chunk(state: Seq<int>, chunk: Seq<int>) -> Seq<int> {
    poseidon2_of(
        Seq::new(
            16,
            |i: int|
                if i < chunk.len() {
                    chunk[i]
                } else {
                    state[i]
                },
        ),
    )
}

/// The padding-free sponge over the whole input, eight elements at a time.
pub open spec fn sponge_v(state: Seq<int>, input: Seq<int>) -> Seq<int>
    decreases input.len(),
{
    if input.len() == 0 {
        state
    } else if input.len() <= 8 {
        absorb_chunk(state, input)
    } else {
        sponge_v(absorb_chunk(state, input.take(8)), input.skip(8))
    }
}

/// A point encoded for hashing: the sixteen coordinate coefficients,
/// reduced into the hash field.
pub open spec fn encode_point_v(p: PointV) -> Seq<int> {
    Seq::new(
        16,
        |i: int|
            if i < 8 {
                p.x[i] % (HASH_P as int)
            } else {
                p.y[i - 8] % (HASH_P as int)
            },
    )
}

/// The sponge input `encode(R) ++ encode(pk) ++ msg`.
pub open spec fn hash_input_v(r: PointV, pk: PointV, msg: Seq<u32>) -> Seq<int> {
    encode_point_v(r) + encode_point_v(pk) + Seq::new(msg.len(), |i: int| msg[i] as int)
}

/// The packed challenge: the first five digest cells, two pairs packed
/// into 62-bit values and the fifth on its own.
pub open spec fn challenge_val_v(r: PointV, pk: PointV, msg: Seq<u32>) -> int {
    let d = sponge_v(Seq::new(16, |i: int| 0int), hash_input_v(r, pk, msg));
    d[0] + d[1] * 0x80000000 + d[2] * 0x10000000000000000 + d[3]
        * 0x800000000000000000000000int + d[4] * 0x100000000000000000000000000000000int
}

/// Encode a finite point as sixteen hash-field elements: the coordinate
/// coefficients reduced modulo the hash prime.
fn encode_point(point: &Affine) -> (r: [u32; 16])
    requires
        pt_wf(*point),
    ensures
        forall|i: int| 0 <= i < 16 ==> r[i] < HASH_P,
        Seq::new(16, |i: int| r[i] as int) == encode_point_v(pv(*point)),
{
    let mut out: [u32; 16] = [0, 0, 0, 0, 0, 0, 0, 0, 0, 0, 0, 0, 0, 0, 0, 0];
    let mut i: usize = 0;
    while i < 8
        invariant
            i <= 8,
            pt_wf(*point),
            forall|t: int| 0 <= t < i ==> out[t] == point.x.c[t] % HASH_P,
            forall|t: int| 0 <= t < i ==> out[8 + t] == point.y.c[t] % HASH_P,
            forall|t: int| 0 <= t < i ==> out[t] < HASH_P,
            forall|t: int| 8 <= t < 8 + i ==> out[t] < HASH_P,
        decreases 8 - i,
    {
        out[i] = point.x.c[i] % HASH_P;
        out[i + 8] = point.y.c[i] % HASH_P;
        i += 1;
    }
    proof {
        assert(Seq::new(16, |i: int| out[i] as int) =~= encode_point_v(pv(*point)));
    }
    out
}

/// Compute the Fiat-Shamir challenge `e = H(R || pk || msg)`: the encoded
/// points and the message are absorbed by the sponge and the first five
/// digest cells are packed into a scalar. Fails exactly when `R` or `pk`
/// is the point at infinity.
pub fn hash_challenge(r: &Affine, pk: &Affine, msg: &[u32]) -> (res: Result<
    ScalarField,
    SchnorrError,
>)
    requires
        pt_wf(*r),
        pt_wf(*pk),
        forall|i: int| 0 <= i < msg@.len() ==> msg@[i] < HASH_P,
        msg@.len() <= usize::MAX - 32,
    ensures
        res.is_ok() <==> (!pv(*r).inf && !pv(*pk).inf),
        res matches Ok(e) ==> sf_wf(e) && mont_val(e) == challenge_val_v(pv(*r), pv(*pk), msg@),
        res matches Err(e) ==> e == SchnorrError::InvalidPoint,
{
    if r.is_infinity() || pk.is_infinity() {
        return Err(SchnorrError::InvalidPoint);
    }
    let enc_r = encode_point(r);
    let enc_pk = encode_point(pk);
    let mut input: Vec<u32> = Vec::new();
    let mut i: usize = 0;
    while i < 16
        invariant
            i <= 16,
            input@.len() == i,
            forall|t: int| 0 <= t < i ==> input@[t] == enc_r[t],
            forall|t: int| 0 <= t < 16 ==> enc_r[t] < HASH_P,
            forall|t: int| 0 <= t < i ==> input@[t] < HASH_P,
        decreases 16 - i,
    {
        input.push(enc_r[i]);
        i += 1;
    }
    let mut j: usize = 0;
    while j < 16
        invariant
            j <= 16,
            input@.len() == 16 + j,
            forall|t: int| 0 <= t < 16 ==> input@[t] == enc_r[t],
            forall|t: int| 0 <= t < j ==> input@[16 + t] == enc_pk[t],
            forall|t: int| 0 <= t < 16 ==> enc_pk[t] < HASH_P,
            forall|t: int| 0 <= t < input@.len() ==> input@[t] < HASH_P,
        decreases 16 - j,
    {
        input.push(enc_pk[j]);
        j += 1;
    }
    let mut k: usize = 0;
    while k < msg.len()
        invariant
            k <= msg@.len(),
            msg@.len() <= usize::MAX - 32,
            input@.len() == 32 + k,
            forall|t: int| 0 <= t < 16 ==> input@[t] == enc_r[t],
            forall|t: int| 0 <= t < 16 ==> input@[16 + t] == enc_pk[t],
            forall|t: int| 0 <= t < k ==> input@[32 + t] == msg@[t],
            forall|t: int| 0 <= t < msg@.len() ==> msg@[t] < HASH_P,
            forall|t: int| 0 <= t < input@.len() ==> input@[t] < HASH_P,
        decreases msg@.len() - k,
    {
        input.push(msg[k]);
        k += 1;
    }
    proof {
        assert(Seq::new(input@.len(), |t: int| input@[t] as int) =~= hash_input_v(
            pv(*r),
            pv(*pk),
            msg@,
        ));
    }
    let digest = sponge_hash(&input);
    let d0: u64 = digest[0] as u64;
    let d1: u64 = digest[1] as u64;
    let d2: u64 = digest[2] as u64;
    let d3: u64 = digest[3] as u64;
    let d4: u64 = digest[4] as u64;
    let limb0: u64 = d0 + d1 * 0x80000000;
    let limb1: u64 = d2 + d3 * 0x80000000;
    let limb2: u64 = d4;
    let limbs: [u64; 4] = [limb0, limb1, limb2, 0];
    proof {
        assert(val4(limbs) == challenge_val_v(pv(*r), pv(*pk), msg@));
        assert(val4(limbs) < crate::scalarfield::modulus());
    }
    Ok(ScalarField::from_canonical_limbs(limbs))
}

/// Absorb the whole input into a zero-initialized sponge state and return
/// the final state.
fn sponge_hash(input: &Vec<u32>) -> (r: [u32; 16])
    requires
        input@.len() > 0,
        forall|i: int| 0 <= i < input@.len() ==> input@[i] < HASH_P,
    ensures
        forall|i: int| 0 <= i < 16 ==> r[i] < HASH_P,
        Seq::new(16, |i: int| r[i] as int) == sponge_v(
            Seq::new(16, |i: int| 0int),
            Seq::new(input@.len(), |i: int| input@[i] as int),
        ),
{
    let mut state: [u32; 16] = [0, 0, 0, 0, 0, 0, 0, 0, 0, 0, 0, 0, 0, 0, 0, 0];
    let ghost full: Seq<int> = Seq::new(input@.len(), |i: int| input@[i] as int);
    proof {
        assert(Seq::new(16, |i: int| state[i] as int) =~= Seq::new(16, |i: int| 0int));
        assert(full.skip(0) =~= full);
    }
    let n: usize = input.len();
    let mut pos: usize = 0;
    while pos < n
        invariant
            pos <= n,
            n == input@.len(),
            full == Seq::new(input@.len(), |i: int| input@[i] as int),
            forall|i: int| 0 <= i < input@.len() ==> input@[i] < HASH_P,
            forall|i: int| 0 <= i < 16 ==> state[i] < HASH_P,
            sponge_v(Seq::new(16, |i: int| state[i] as int), full.skip(pos as int)) == sponge_v(
                Seq::new(16, |i: int| 0int),
                full,
            ),
        decreases n - pos,
    {
        let chunk_len: usize = if n - pos < 8 {
            n - pos
        } else {
            8
        };
        let ghost pre = Seq::new(16, |i: int| state[i] as int);
        let ghost rest = full.skip(pos as int);
        let mut c: usize = 0;
        while c < chunk_len
            invariant
                c <= chunk_len,
                chunk_len <= 8,
                pos + chunk_len <= n,
                n == input@.len(),
                forall|i: int| 0 <= i < input@.len() ==> input@[i] < HASH_P,
                forall|i: int| 0 <= i < 16 ==> state[i] < HASH_P,
                forall|i: int| 0 <= i < c ==> state[i] == input@[pos + i],
                forall|i: int| c <= i < 16 ==> state[i] == pre[i],
            decreases chunk_len - c,
        {
            state[c] = input[pos + c];
            c += 1;
        }
        proof {
            let chunk = if rest.len() <= 8 {
                rest
            } else {
                rest.take(8)
            };
            assert(chunk.len() == chunk_len);
            assert(Seq::new(16, |i: int| state[i] as int) =~= Seq::new(
                16,
                |i: int|
                    if i < chunk.len() {
                        chunk[i]
                    } else {
                        pre[i]
                    },
            ));
        }
        state = poseidon2_permute(&state);
        proof {
            if rest.len() > 8 {
                assert(rest.skip(8) =~= full.skip(pos as int + 8));
            }
        }
        pos = pos + chunk_len;
    }
    proof {
        assert(full.skip(n as int) =~= Seq::<int>::empty());
    }
    state
}

} // verus!
