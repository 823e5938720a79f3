//! Circuit-friendly elliptic curve points: affine coordinates stored as two
//! arrays of eight canonical base-field coefficients, matching the trace
//! cell layout.

use vstd::prelude::*;

verus! {

use crate::affine::{
    add_v, dba_v, double_v, infinity_v, neg_v, pt_wf, pv, Affine, PointV,
};
use crate::basefield::{fp8_wf, v8, Fp8, FP};
use crate::scalarfield::{mont_val, scalar_bits, sf_wf, ScalarField};

/// A curve point in circuit representation: each coordinate is eight
/// base-field coefficients, plus the infinity flag.
#[derive(Clone, Copy, Debug, PartialEq, Eq)]
pub struct CircuitPoint {
    /// The x-coordinate coefficients.
    pub x: [u32; 8],
    /// The y-coordinate coefficients.
    pub y: [u32; 8],
    /// Whether this is the point at infinity.
    pub is_infinity: bool,
}

/// All coefficients are canonical, and the point at infinity carries
/// zeroed coordinates.
pub open spec fn cp_wf(p: CircuitPoint) -> bool {
    (forall|i: int| 0 <= i < 8 ==> p.x[i] < FP) && (forall|i: int| 0 <= i < 8 ==> p.y[i] < FP) && (
    p.is_infinity ==> (forall|i: int| 0 <= i < 8 ==> p.x[i] == 0 && p.y[i] == 0))
}

/// The mathematical model of a circuit point.
pub open spec fn cpv(p: CircuitPoint) -> PointV {
    PointV {
        x: Seq::new(8, |i: int| p.x[i] as int),
        y: Seq::new(8, |i: int| p.y[i] as int),
        inf: p.is_infinity,
    }
}

impl CircuitPoint {
    /// The point at infinity, with zeroed coordinates.
    pub fn infinity() -> (r: CircuitPoint)
        ensures
            cp_wf(r),
            cpv(r) == infinity_v(),
    {
        let r = CircuitPoint {
            x: [0, 0, 0, 0, 0, 0, 0, 0],
            y: [0, 0, 0, 0, 0, 0, 0, 0],
            is_infinity: true,
        };
        proof {
            assert(cpv(r) =~= infinity_v());
        }
        r
    }

    /// Convert from an affine point: the coefficient arrays are copied, and
    /// the point at infinity is stored with zeroed coordinates.
    pub fn from_affine(point: &Affine) -> (r: CircuitPoint)
        requires
            pt_wf(*point),
        ensures
            cp_wf(r),
            pv(*point).inf ==> cpv(r) == infinity_v(),
            !pv(*point).inf ==> cpv(r) == pv(*point),
    {
        if point.is_infinity() {
            let r = CircuitPoint::infinity();
            return r;
        }
        let r = CircuitPoint { x: point.x.c, y: point.y.c, is_infinity: false };
        proof {
            assert(cpv(r) =~= pv(*point));
        }
        r
    }

    /// Convert back to an affine point.
    pub fn to_affine(&self) -> (r: Affine)
        requires
            cp_wf(*self),
        ensures
            pt_wf(r),
            pv(r) == cpv(*self),
    {
        if self.is_infinity {
            let r = Affine::infinity();
            proof {
                assert(cpv(*self) =~= infinity_v());
            }
            return r;
        }
        let x = Fp8::from_coeffs(self.x);
        let y = Fp8::from_coeffs(self.y);
        let r = Affine::new(x, y);
        proof {
            assert(pv(r) =~= cpv(*self));
        }
        r
    }

    /// The x-coordinate as an extension field element.
    pub fn x_as_basefield(&self) -> (r: Fp8)
        requires
            cp_wf(*self),
        ensures
            fp8_wf(r),
            v8(r) == cpv(*self).x,
    {
        let r = Fp8::from_coeffs(self.x);
        proof {
            assert(v8(r) =~= cpv(*self).x);
        }
        r
    }

    /// The y-coordinate as an extension field element.
    pub fn y_as_basefield(&self) -> (r: Fp8)
        requires
            cp_wf(*self),
        ensures
            fp8_wf(r),
            v8(r) == cpv(*self).y,
    {
        let r = Fp8::from_coeffs(self.y);
        proof {
            assert(v8(r) =~= cpv(*self).y);
        }
        r
    }

    /// Point addition, through the affine representation.
    pub fn add(&self, other: &CircuitPoint) -> (r: CircuitPoint)
        requires
            cp_wf(*self),
            cp_wf(*other),
        ensures
            cp_wf(r),
            cpv(r) == add_v(cpv(*self), cpv(*other)),
    {
        let p1 = self.to_affine();
        let p2 = other.to_affine();
        let result = p1.add(p2);
        let r = CircuitPoint::from_affine(&result);
        proof {
            if cpv(*self).inf {
                assert(cpv(*self) =~= infinity_v());
            }
            if cpv(*other).inf {
                assert(cpv(*other) =~= infinity_v());
            }
        }
        r
    }

    /// Point doubling, through the affine representation.
    pub fn double(&self) -> (r: CircuitPoint)
        requires
            cp_wf(*self),
        ensures
            cp_wf(r),
            cpv(r) == double_v(cpv(*self)),
    {
        let p = self.to_affine();
        let result = p.double();
        let r = CircuitPoint::from_affine(&result);
        proof {
            if cpv(*self).inf {
                assert(cpv(*self) =~= infinity_v());
            }
        }
        r
    }

    /// Point negation, through the affine representation.
    pub fn negate(&self) -> (r: CircuitPoint)
        requires
            cp_wf(*self),
        ensures
            cp_wf(r),
            cpv(r) == neg_v(cpv(*self)),
    {
        let p = self.to_affine();
        let result = p.negate();
        let r = CircuitPoint::from_affine(&result);
        proof {
            if cpv(*self).inf {
                assert(cpv(*self) =~= infinity_v());
            }
        }
        r
    }

    /// Double-and-add scalar multiplication over a bit slice, least
    /// significant bit first.
    pub fn scalar_mul(&self, scalar_bits: &[bool]) -> (r: CircuitPoint)
        requires
            cp_wf(*self),
        ensures
            cp_wf(r),
            cpv(r) == dba_v(infinity_v(), cpv(*self), scalar_bits@),
    {
        let mut result = CircuitPoint::infinity();
        let mut temp = *self;
        let n: usize = scalar_bits.len();
        let mut i: usize = 0;
        proof {
            assert(scalar_bits@.skip(0) =~= scalar_bits@);
        }
        while i < n
            invariant
                i <= n,
                n == scalar_bits@.len(),
                cp_wf(result),
                cp_wf(temp),
                dba_v(cpv(result), cpv(temp), scalar_bits@.skip(i as int)) == dba_v(
                    infinity_v(),
                    cpv(*self),
                    scalar_bits@,
                ),
            decreases n - i,
        {
            proof {
                assert(scalar_bits@.skip(i as int).len() == n - i);
                assert(scalar_bits@.skip(i as int)[0] == scalar_bits@[i as int]);
                assert(scalar_bits@.skip(i as int).skip(1) =~= scalar_bits@.skip(i as int + 1));
            }
            if scalar_bits[i] {
                result = result.add(&temp);
            }
            temp = temp.double();
            i += 1;
        }
        proof {
            assert(scalar_bits@.skip(n as int) =~= Seq::<bool>::empty());
        }
        result
    }

    /// Whether two points are equal as group elements: both infinite, or
    /// both finite with the same coordinates.
    pub fn equals(&self, other: &CircuitPoint) -> (r: bool)
        ensures
            r <==> (cpv(*self).inf && cpv(*other).inf) || (!cpv(*self).inf && !cpv(*other).inf
                && cpv(*self) == cpv(*other)),
    {
        if self.is_infinity && other.is_infinity {
            return true;
        }
        if self.is_infinity || other.is_infinity {
            return false;
        }
        let mut i: usize = 0;
        while i < 8
            invariant
                i <= 8,
                !self.is_infinity,
                !other.is_infinity,
                forall|j: int| 0 <= j < i ==> self.x[j] == other.x[j] && self.y[j] == other.y[j],
            decreases 8 - i,
        {
            if self.x[i] != other.x[i] || self.y[i] != other.y[i] {
                proof {
                    if self.x[i as int] != other.x[i as int] {
                        assert(cpv(*self).x[i as int] != cpv(*other).x[i as int]);
                    } else {
                        assert(cpv(*self).y[i as int] != cpv(*other).y[i as int]);
                    }
                }
                return false;
            }
            i += 1;
        }
        proof {
            assert(cpv(*self).x =~= cpv(*other).x);
            assert(cpv(*self).y =~= cpv(*other).y);
            assert(cpv(*self) =~= cpv(*other));
        }
        true
    }
}

/// The 256 canonical bits of a scalar, least significant first, for
/// bit-serial scalar multiplication.
pub fn scalar_to_bits(scalar: &ScalarField) -> (r: Vec<bool>)
    requires
        sf_wf(*scalar),
    ensures
        r@ == scalar_bits(mont_val(*scalar)),
{
    let limbs: [u64; 4] = scalar.to_canonical_u64_vec();
    proof {
        crate::scalarfield::lemma_limbs_give_value_bits(limbs);
    }
    let mut bits: Vec<bool> = Vec::new();
    let mut li: usize = 0;
    while li < 4
        invariant
            li <= 4,
            bits@.len() == 64 * li,
            forall|t: int|
                0 <= t < 64 * li ==> bits@[t] == crate::basefield::bits_of_limbs(limbs)[t],
        decreases 4 - li,
    {
        let mut b: usize = 0;
        while b < 64
            invariant
                li < 4,
                b <= 64,
                bits@.len() == 64 * li + b,
                forall|t: int|
                    0 <= t < 64 * li + b ==> bits@[t] == crate::basefield::bits_of_limbs(limbs)[t],
            decreases 64 - b,
        {
            let bit = (limbs[li] >> (b as u64)) & 1 == 1;
            proof {
                let i: int = 64 * (li as int) + (b as int);
                assert(i / 64 == li && i % 64 == b) by {
                    vstd::arithmetic::div_mod::lemma_fundamental_div_mod_converse(
                        i,
                        64,
                        li as int,
                        b as int,
                    );
                }
                assert(crate::basefield::bits_of_limbs(limbs)[i] == bit);
            }
            bits.push(bit);
            b += 1;
        }
        li += 1;
    }
    proof {
        assert(bits@ =~= crate::basefield::bits_of_limbs(limbs));
    }
    bits
}

} // verus!
