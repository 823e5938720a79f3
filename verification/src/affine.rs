//! Affine points on the curve `y^2 = x^3 + 3u*x + 42639` over the degree-8
//! extension field, with the point at infinity flagged in-band.

use vstd::prelude::*;

verus! {

use crate::basefield::{
    addv, fp8_add, fp8_inverse, fp8_inverse_v, fp8_is_zero, fp8_mul, fp8_neg, fp8_sub,
    fp8_wf, fp8_zero_v, lemma_v8_eq, lemma_v8_zero, mulv, negv, subv, v8, Fp8, FP,
};
use crate::scalarfield::{mont_val, scalar_bits, sf_wf, ScalarField};

/// The mathematical model of a point: coefficient sequences for both
/// coordinates and the infinity flag.
#[verifier::ext_equal]
pub ghost struct PointV {
    pub x: Seq<int>,
    pub y: Seq<int>,
    pub inf: bool,
}

/// Coordinates of a model point are eight canonical coefficients.
pub open spec fn pointv_wf(p: PointV) -> bool {
    p.x.len() == 8 && p.y.len() == 8 && (forall|i: int| 0 <= i < 8 ==> 0 <= #[trigger] p.x[i] < FP)
        && (forall|i: int| 0 <= i < 8 ==> 0 <= #[trigger] p.y[i] < FP)
}

/// The model of the point at infinity.
pub open spec fn infinity_v() -> PointV {
    PointV { x: fp8_zero_v(), y: fp8_zero_v(), inf: true }
}

/// The curve coefficient `a = 3u`, as a coefficient sequence.
pub open spec fn curve_a_v() -> Seq<int> {
    Seq::new(8, |i: int| if i == 1 { 3int } else { 0int })
}

/// The curve coefficient `b = 42639`, as a coefficient sequence.
pub open spec fn curve_b_v() -> Seq<int> {
    Seq::new(8, |i: int| if i == 0 { 42639int } else { 0int })
}

/// Whether a model point satisfies the curve equation; infinity does.
pub open spec fn on_curve_v(p: PointV) -> bool {
    p.inf || {
        let y2 = mulv(p.y, p.y);
        let x2 = mulv(p.x, p.x);
        let x3 = mulv(x2, p.x);
        let ax = mulv(p.x, curve_a_v());
        y2 == addv(addv(x3, ax), curve_b_v())
    }
}

/// The chord-and-tangent doubling of a model point.
pub open spec fn double_v(p: PointV) -> PointV {
    if p.inf {
        p
    } else if p.y == fp8_zero_v() {
        infinity_v()
    } else {
        let x2 = mulv(p.x, p.x);
        let num = addv(addv(addv(x2, x2), x2), curve_a_v());
        let den = addv(p.y, p.y);
        let l = mulv(num, fp8_inverse_v(den));
        let l2 = mulv(l, l);
        let xr = subv(subv(l2, p.x), p.x);
        let yr = subv(mulv(l, subv(p.x, xr)), p.y);
        PointV { x: xr, y: yr, inf: false }
    }
}

/// The chord-and-tangent sum of two model points, with the special cases
/// spelled out: identity absorbs, equal points double, inverse points give
/// infinity.
pub open spec fn add_v(p: PointV, q: PointV) -> PointV {
    if p.inf {
        q
    } else if q.inf {
        p
    } else if p.x == q.x {
        if p.y == q.y {
            double_v(p)
        } else {
            infinity_v()
        }
    } else {
        let num = subv(q.y, p.y);
        let den = subv(q.x, p.x);
        let l = mulv(num, fp8_inverse_v(den));
        let l2 = mulv(l, l);
        let xr = subv(subv(l2, p.x), q.x);
        let yr = subv(mulv(l, subv(p.x, xr)), p.y);
        PointV { x: xr, y: yr, inf: false }
    }
}

/// The negation of a model point: the y-coordinate flips.
pub open spec fn neg_v(p: PointV) -> PointV {
    if p.inf {
        p
    } else {
        PointV { x: p.x, y: negv(p.y), inf: false }
    }
}

/// Double-and-add over a bit sequence, least significant bit first: each
/// step conditionally adds the running base into the accumulator, then
/// doubles the base.
pub open spec fn dba_v(acc: PointV, base: PointV, bits: Seq<bool>) -> PointV
    decreases bits.len(),
{
    if bits.len() == 0 {
        acc
    } else {
        dba_v(
            if bits[0] {
                add_v(acc, base)
            } else {
                acc
            },
            double_v(base),
            bits.skip(1),
        )
    }
}

/// Double-and-add over a run of clear bits never changes the accumulator.
pub proof fn lemma_dba_no_bits(acc: PointV, base: PointV, bits: Seq<bool>)
    requires
        forall|i: int| 0 <= i < bits.len() ==> !bits[i],
    ensures
        dba_v(acc, base, bits) == acc,
    decreases bits.len(),
{
    if bits.len() > 0 {
        assert(!bits[0]);
        lemma_dba_no_bits(acc, double_v(base), bits.skip(1));
    }
}

/// Multiplying any point by the zero scalar gives the identity.
pub proof fn lemma_scalar_mul_zero(base: PointV)
    ensures
        dba_v(infinity_v(), base, crate::scalarfield::scalar_bits(0)) == infinity_v(),
{
    assert forall|i: int|
        0 <= i < crate::scalarfield::scalar_bits(0).len() implies !crate::scalarfield::scalar_bits(
        0,
    )[i] by {
        vstd::arithmetic::power2::lemma_pow2_pos(i as nat);
        vstd::arithmetic::div_mod::lemma_div_basics(
            vstd::arithmetic::power2::pow2(i as nat) as int,
        );
        assert(0int / (vstd::arithmetic::power2::pow2(i as nat) as int) == 0);
    }
    lemma_dba_no_bits(infinity_v(), base, crate::scalarfield::scalar_bits(0));
}

/// Multiplying any point by the one scalar gives the point back.
pub proof fn lemma_scalar_mul_one(base: PointV)
    ensures
        dba_v(infinity_v(), base, crate::scalarfield::scalar_bits(1)) == base,
{
    let bits = crate::scalarfield::scalar_bits(1);
    assert(bits[0]) by {
        vstd::arithmetic::power2::lemma2_to64();
        assert(1int / (vstd::arithmetic::power2::pow2(0) as int) == 1);
    }
    assert forall|i: int| 1 <= i < bits.len() implies !bits[i] by {
        vstd::arithmetic::power2::lemma_pow2_pos(i as nat);
        vstd::arithmetic::power2::lemma_pow2_strictly_increases(0, i as nat);
        vstd::arithmetic::power2::lemma2_to64();
        vstd::arithmetic::div_mod::lemma_basic_div(1, vstd::arithmetic::power2::pow2(i as nat) as int);
    }
    assert(add_v(infinity_v(), base) == base);
    assert forall|i: int| 0 <= i < bits.skip(1).len() implies !bits.skip(1)[i] by {
        assert(!bits[i + 1]);
    }
    lemma_dba_no_bits(base, double_v(base), bits.skip(1));
    assert(bits.skip(0) == bits);
    assert(dba_v(infinity_v(), base, bits) == dba_v(base, double_v(base), bits.skip(1)));
}

/// A model point is in canonical form when the infinity flag forces the
/// zeroed coordinates that every constructor of the library writes.
pub open spec fn pointv_canon(p: PointV) -> bool {
    p.inf ==> p == infinity_v()
}

/// Adding the identity on either side changes nothing.
pub proof fn lemma_add_identity(p: PointV)
    requires
        pointv_canon(p),
    ensures
        add_v(p, infinity_v()) == p,
        add_v(infinity_v(), p) == p,
{
}

/// Adding a point to itself is doubling.
pub proof fn lemma_add_self_is_double(p: PointV)
    ensures
        add_v(p, p) == double_v(p),
{
}

/// A point plus its negation is the identity.
pub proof fn lemma_add_negate(p: PointV)
    requires
        pointv_wf(p),
        pointv_canon(p),
    ensures
        add_v(p, neg_v(p)) == infinity_v(),
{
    if !p.inf {
        if p.y == negv(p.y) {
            assert forall|i: int| 0 <= i < 8 implies p.y[i] == 0 by {
                assert(p.y[i] == negv(p.y)[i]);
                assert(p.y[i] == ((FP as int) - p.y[i]) % (FP as int));
                if p.y[i] != 0 {
                    vstd::arithmetic::div_mod::lemma_small_mod(
                        (FP - p.y[i]) as nat,
                        FP as nat,
                    );
                }
            }
            assert(p.y =~= fp8_zero_v());
            assert(add_v(p, neg_v(p)) == double_v(p));
        } else {
            assert(add_v(p, neg_v(p)) == infinity_v());
        }
    }
}

/// Affine point: coordinates in the extension field, or the point at
/// infinity, whose coordinates carry no meaning.
#[derive(Clone, Copy, Debug, PartialEq, Eq)]
pub struct Affine {
    /// The x-coordinate.
    pub x: Fp8,
    /// The y-coordinate.
    pub y: Fp8,
    /// Whether this is the point at infinity.
    pub is_infinity: bool,
}

/// Both coordinates hold canonical coefficients, and the point at
/// infinity carries zeroed coordinates.
pub open spec fn pt_wf(p: Affine) -> bool {
    fp8_wf(p.x) && fp8_wf(p.y) && (p.is_infinity ==> fp8_is_zero(p.x) && fp8_is_zero(p.y))
}

/// The mathematical model of an affine point.
pub open spec fn pv(p: Affine) -> PointV {
    PointV { x: v8(p.x), y: v8(p.y), inf: p.is_infinity }
}

impl Affine {
    /// The point at infinity.
    pub fn infinity() -> (r: Affine)
        ensures
            pt_wf(r),
            pv(r) == infinity_v(),
    {
        let r = Affine { x: Fp8::zero(), y: Fp8::zero(), is_infinity: true };
        proof {
            assert(v8(r.x) =~= fp8_zero_v());
            assert(v8(r.y) =~= fp8_zero_v());
            assert(pv(r) =~= infinity_v());
        }
        r
    }

    /// A finite point from its two coordinates.
    pub fn new(x: Fp8, y: Fp8) -> (r: Affine)
        requires
            fp8_wf(x),
            fp8_wf(y),
        ensures
            pt_wf(r),
            pv(r) == (PointV { x: v8(x), y: v8(y), inf: false }),
    {
        Affine { x, y, is_infinity: false }
    }

    /// Whether this point is the point at infinity.
    pub fn is_infinity(&self) -> (r: bool)
        ensures
            r == pv(*self).inf,
    {
        self.is_infinity
    }

    /// The curve coefficient `a = 3u`.
    pub fn curve_a() -> (r: Fp8)
        ensures
            fp8_wf(r),
            v8(r) == curve_a_v(),
    {
        let r = Fp8::from_coeffs([0, 3, 0, 0, 0, 0, 0, 0]);
        proof {
            assert(v8(r) =~= curve_a_v());
        }
        r
    }

    /// The curve coefficient `b = 42639`.
    pub fn curve_b() -> (r: Fp8)
        ensures
            fp8_wf(r),
            v8(r) == curve_b_v(),
    {
        let r = Fp8::from_coeffs([42639, 0, 0, 0, 0, 0, 0, 0]);
        proof {
            assert(v8(r) =~= curve_b_v());
        }
        r
    }

    /// Whether the point satisfies the curve equation.
    pub fn is_on_curve(&self) -> (r: bool)
        requires
            pt_wf(*self),
        ensures
            r <==> on_curve_v(pv(*self)),
    {
        if self.is_infinity {
            return true;
        }
        let y2 = fp8_mul(&self.y, &self.y);
        let x2 = fp8_mul(&self.x, &self.x);
        let x3 = fp8_mul(&x2, &self.x);
        let ax = fp8_mul(&self.x, &Affine::curve_a());
        let rhs = fp8_add(&fp8_add(&x3, &ax), &Affine::curve_b());
        let r = y2.equals(&rhs);
        proof {
            lemma_v8_eq(y2, rhs);
        }
        r
    }

    /// Coordinate-wise equality of the representation.
    pub fn equals(&self, other: &Affine) -> (r: bool)
        ensures
            r <==> pv(*self) == pv(*other),
    {
        proof {
            lemma_v8_eq(self.x, other.x);
            lemma_v8_eq(self.y, other.y);
        }
        if self.is_infinity != other.is_infinity {
            proof {
                assert(pv(*self).inf != pv(*other).inf);
            }
            false
        } else {
            let r = self.x.equals(&other.x) && self.y.equals(&other.y);
            proof {
                if r {
                    assert(pv(*self) =~= pv(*other));
                } else {
                    assert(pv(*self) != pv(*other));
                }
            }
            r
        }
    }

    /// The generator point, a fixed square-root-based hash-to-curve output.
    pub fn generator() -> (r: Affine)
        ensures
            pt_wf(r),
            pv(r) == generator_v(),
    {
        let x = Fp8::from_coeffs(
            [
                1813646457,
                1763905369,
                2115217807,
                1299273209,
                1825476283,
                438909494,
                1368232771,
                1195559694,
            ],
        );
        let y = Fp8::from_coeffs(
            [
                376996212,
                840779000,
                1365273355,
                655051022,
                1286889583,
                125328769,
                434578416,
                2077084094,
            ],
        );
        let r = Affine::new(x, y);
        proof {
            assert(pv(r).x =~= generator_v().x);
            assert(pv(r).y =~= generator_v().y);
            assert(pv(r) =~= generator_v());
        }
        r
    }

    /// An independent second generator for Pedersen-style commitments.
    pub fn generator_pedersen() -> (r: Affine)
        ensures
            pt_wf(r),
            pv(r) == generator_pedersen_v(),
    {
        let x = Fp8::from_coeffs(
            [
                1709677626,
                550988532,
                358531926,
                543192455,
                1949220725,
                7156361,
                1750752810,
                1741425845,
            ],
        );
        let y = Fp8::from_coeffs(
            [
                548133034,
                1399061592,
                978667041,
                156828552,
                598910111,
                1684498755,
                1876016551,
                71894712,
            ],
        );
        let r = Affine::new(x, y);
        proof {
            assert(pv(r).x =~= generator_pedersen_v().x);
            assert(pv(r).y =~= generator_pedersen_v().y);
            assert(pv(r) =~= generator_pedersen_v());
        }
        r
    }

    /// Chord-and-tangent doubling.
    pub fn double(&self) -> (r: Affine)
        requires
            pt_wf(*self),
        ensures
            pt_wf(r),
            pv(r) == double_v(pv(*self)),
    {
        if self.is_infinity {
            return *self;
        }
        proof {
            lemma_v8_zero(self.y);
        }
        if self.y.is_zero() {
            return Affine::infinity();
        }
        let x2 = fp8_mul(&self.x, &self.x);
        let three_x2 = fp8_add(&fp8_add(&x2, &x2), &x2);
        let numerator = fp8_add(&three_x2, &Affine::curve_a());
        let denominator = fp8_add(&self.y, &self.y);
        let lambda = fp8_mul(&numerator, &fp8_inverse(&denominator));
        let lambda2 = fp8_mul(&lambda, &lambda);
        let x_r = fp8_sub(&fp8_sub(&lambda2, &self.x), &self.x);
        let y_r = fp8_sub(&fp8_mul(&lambda, &fp8_sub(&self.x, &x_r)), &self.y);
        let r = Affine::new(x_r, y_r);
        proof {
            assert(pv(r) =~= double_v(pv(*self)));
        }
        r
    }

    /// Negation: the y-coordinate flips; infinity stays.
    pub fn negate(&self) -> (r: Affine)
        requires
            pt_wf(*self),
        ensures
            pt_wf(r),
            pv(r) == neg_v(pv(*self)),
    {
        if self.is_infinity {
            return *self;
        }
        let r = Affine::new(self.x, fp8_neg(&self.y));
        proof {
            assert(pv(r) =~= neg_v(pv(*self)));
        }
        r
    }

    /// Chord-and-tangent addition with the special cases of the group law.
    pub fn add(self, other: Affine) -> (r: Affine)
        requires
            pt_wf(self),
            pt_wf(other),
        ensures
            pt_wf(r),
            pv(r) == add_v(pv(self), pv(other)),
    {
        if self.is_infinity {
            return other;
        }
        if other.is_infinity {
            return self;
        }
        proof {
            lemma_v8_eq(self.x, other.x);
            lemma_v8_eq(self.y, other.y);
        }
        if self.x.equals(&other.x) {
            if self.y.equals(&other.y) {
                return self.double();
            } else {
                return Affine::infinity();
            }
        }
        let numerator = fp8_sub(&other.y, &self.y);
        let denominator = fp8_sub(&other.x, &self.x);
        let lambda = fp8_mul(&numerator, &fp8_inverse(&denominator));
        let lambda2 = fp8_mul(&lambda, &lambda);
        let x_r = fp8_sub(&fp8_sub(&lambda2, &self.x), &other.x);
        let y_r = fp8_sub(&fp8_mul(&lambda, &fp8_sub(&self.x, &x_r)), &self.y);
        let r = Affine::new(x_r, y_r);
        proof {
            assert(pv(r) =~= add_v(pv(self), pv(other)));
        }
        r
    }

    /// Subtraction: adding the negation.
    pub fn sub(self, other: Affine) -> (r: Affine)
        requires
            pt_wf(self),
            pt_wf(other),
        ensures
            pt_wf(r),
            pv(r) == add_v(pv(self), neg_v(pv(other))),
    {
        self.add(other.negate())
    }

    /// Double-and-add scalar multiplication over the canonical bits of the
    /// scalar.
    pub fn scalar_mul(&self, scalar: &ScalarField) -> (r: Affine)
        requires
            pt_wf(*self),
            sf_wf(*scalar),
        ensures
            pt_wf(r),
            pv(r) == dba_v(infinity_v(), pv(*self), scalar_bits(mont_val(*scalar))),
    {
        let limbs: [u64; 4] = scalar.to_canonical_u64_vec();
        proof {
            crate::scalarfield::lemma_limbs_give_value_bits(limbs);
        }
        let ghost allbits = scalar_bits(mont_val(*scalar));
        let mut result = Affine::infinity();
        let mut temp = *self;
        proof {
            assert(allbits.skip(0) =~= allbits);
        }
        let mut li: usize = 0;
        while li < 4
            invariant
                li <= 4,
                pt_wf(result),
                pt_wf(temp),
                allbits == crate::basefield::bits_of_limbs(limbs),
                allbits == scalar_bits(mont_val(*scalar)),
                dba_v(pv(result), pv(temp), allbits.skip(64 * li)) == dba_v(
                    infinity_v(),
                    pv(*self),
                    allbits,
                ),
            decreases 4 - li,
        {
            let mut limb: u64 = limbs[li];
            let mut b: usize = 0;
            proof {
                let cur: u64 = limbs[li as int];
                assert(cur >> 0u64 == cur) by (bit_vector);
            }
            while b < 64
                invariant
                    li < 4,
                    b <= 64,
                    pt_wf(result),
                    pt_wf(temp),
                    allbits == crate::basefield::bits_of_limbs(limbs),
                    allbits == scalar_bits(mont_val(*scalar)),
                    b < 64 ==> limb == limbs[li as int] >> (b as u64),
                    dba_v(pv(result), pv(temp), allbits.skip(64 * li + b)) == dba_v(
                        infinity_v(),
                        pv(*self),
                        allbits,
                    ),
                decreases 64 - b,
            {
                let ghost i: int = 64 * (li as int) + (b as int);
                proof {
                    assert(0 <= i < 256);
                    assert(i / 64 == li && i % 64 == b) by {
                        vstd::arithmetic::div_mod::lemma_fundamental_div_mod_converse(
                            i,
                            64,
                            li as int,
                            b as int,
                        );
                    }
                    assert(allbits[i] == ((limb & 1) == 1));
                    assert(allbits.skip(i).len() == 256 - i);
                    assert(allbits.skip(i)[0] == allbits[i]);
                    assert(allbits.skip(i).skip(1) =~= allbits.skip(i + 1));
                }
                if limb & 1 == 1 {
                    result = result.add(temp);
                }
                temp = temp.double();
                proof {
                    if b + 1 < 64 {
                        let cur: u64 = limbs[li as int];
                        let b64: u64 = b as u64;
                        assert((cur >> b64) >> 1u64 == cur >> ((b64 + 1) as u64)) by (bit_vector)
                            requires
                                b64 < 63,
                        ;
                    }
                }
                limb = limb >> 1u64;
                b += 1;
            }
            li += 1;
            proof {
                assert(64 * (li - 1) + 64 == 64 * li);
            }
        }
        proof {
            assert(allbits.skip(256int) =~= Seq::<bool>::empty());
        }
        result
    }

    /// Multiply the fixed generator, scanning the scalar in byte windows.
    pub fn mul_generator(scalar: &ScalarField) -> (r: Affine)
        requires
            sf_wf(*scalar),
        ensures
            pt_wf(r),
            pv(r) == crate::msm::gen_mul_v(mont_val(*scalar)),
    {
        crate::msm::mul_generator_affine(scalar)
    }

    /// Compute `a * G + b * P`, where `G` is the fixed generator.
    pub fn double_scalar_mul_basepoint(a: &ScalarField, b: &ScalarField, point: &Affine) -> (r:
        Affine)
        requires
            sf_wf(*a),
            sf_wf(*b),
            pt_wf(*point),
        ensures
            pt_wf(r),
            pv(r) == crate::msm::dsm_v(mont_val(*a), mont_val(*b), pv(*point)),
    {
        crate::msm::double_scalar_mul_basepoint_affine(a, b, point)
    }
}

/// The model of the fixed generator.
pub open spec fn generator_v() -> PointV {
    PointV {
        x: Seq::new(
            8,
            |i: int|
                if i == 0 {
                    1813646457int
                } else if i == 1 {
                    1763905369int
                } else if i == 2 {
                    2115217807int
                } else if i == 3 {
                    1299273209int
                } else if i == 4 {
                    1825476283int
                } else if i == 5 {
                    438909494int
                } else if i == 6 {
                    1368232771int
                } else {
                    1195559694int
                },
        ),
        y: Seq::new(
            8,
            |i: int|
                if i == 0 {
                    376996212int
                } else if i == 1 {
                    840779000int
                } else if i == 2 {
                    1365273355int
                } else if i == 3 {
                    655051022int
                } else if i == 4 {
                    1286889583int
                } else if i == 5 {
                    125328769int
                } else if i == 6 {
                    434578416int
                } else {
                    2077084094int
                },
        ),
        inf: false,
    }
}

/// The model of the Pedersen generator.
pub open spec fn generator_pedersen_v() -> PointV {
    PointV {
        x: Seq::new(
            8,
            |i: int|
                if i == 0 {
                    1709677626int
                } else if i == 1 {
                    550988532int
                } else if i == 2 {
                    358531926int
                } else if i == 3 {
                    543192455int
                } else if i == 4 {
                    1949220725int
                } else if i == 5 {
                    7156361int
                } else if i == 6 {
                    1750752810int
                } else {
                    1741425845int
                },
        ),
        y: Seq::new(
            8,
            |i: int|
                if i == 0 {
                    548133034int
                } else if i == 1 {
                    1399061592int
                } else if i == 2 {
                    978667041int
                } else if i == 3 {
                    156828552int
                } else if i == 4 {
                    598910111int
                } else if i == 5 {
                    1684498755int
                } else if i == 6 {
                    1876016551int
                } else {
                    71894712int
                },
        ),
        inf: false,
    }
}


/// The 64 bits of a machine integer, least significant first.
pub open spec fn u64_bits(n: u64) -> Seq<bool> {
    Seq::new(64, |i: int| (n >> (i as u64)) & 1 == 1)
}

/// The window table of width four: entry `i` holds `i * P`, even entries by
/// doubling, odd entries by adding `P`.
pub open spec fn wtab_v(p: PointV, i: int) -> PointV
    decreases i,
{
    if i <= 0 {
        infinity_v()
    } else if i == 1 {
        p
    } else if i % 2 == 0 {
        double_v(wtab_v(p, i / 2))
    } else {
        add_v(wtab_v(p, i - 1), p)
    }
}

/// Four-bit window `pos` of a canonical value, least significant first.
pub open spec fn value_nib(x: int, pos: int) -> int {
    (x / (vstd::arithmetic::power2::pow2((4 * pos) as nat) as int)) % 16
}

/// One window step: four doublings, then the table entry selected by the
/// window.
pub open spec fn win_step_v(acc: PointV, p: PointV, w: int) -> PointV {
    let d = crate::msm::double_n_v(acc, 4);
    if w != 0 {
        add_v(d, wtab_v(p, w))
    } else {
        d
    }
}

/// The state after the top `k` four-bit windows have been scanned.
pub open spec fn win_rec(x: int, p: PointV, k: int) -> PointV
    decreases k,
{
    if k <= 0 {
        infinity_v()
    } else {
        win_step_v(win_rec(x, p, k - 1), p, value_nib(x, 64 - k))
    }
}

/// The fixed-window scalar multiplication of a finite point.
pub open spec fn windowed_mul_v(x: int, p: PointV) -> PointV {
    win_rec(x, p, 64)
}

/// The running sum `sum s_i * P_i` over the first `n` pairs.
pub open spec fn msm_rec(pts: Seq<Affine>, ss: Seq<ScalarField>, n: int) -> PointV
    decreases n,
{
    if n <= 0 {
        infinity_v()
    } else {
        add_v(
            msm_rec(pts, ss, n - 1),
            dba_v(infinity_v(), pv(pts[n - 1]), scalar_bits(mont_val(ss[n - 1]))),
        )
    }
}

impl Affine {
    /// Multiply by a small machine integer by double-and-add over its bits.
    pub fn mul_u64(&self, n: u64) -> (r: Affine)
        requires
            pt_wf(*self),
        ensures
            pt_wf(r),
            pv(r) == dba_v(infinity_v(), pv(*self), u64_bits(n)),
    {
        let ghost allbits = u64_bits(n);
        let mut result = Affine::infinity();
        let mut temp = *self;
        let mut bits: u64 = n;
        proof {
            assert(allbits.skip(0) =~= allbits);
            assert(n >> 0u64 == n) by (bit_vector);
        }
        let mut b: usize = 0;
        while b < 64
            invariant
                b <= 64,
                pt_wf(result),
                pt_wf(temp),
                allbits == u64_bits(n),
                b < 64 ==> bits == n >> (b as u64),
                dba_v(pv(result), pv(temp), allbits.skip(b as int)) == dba_v(
                    infinity_v(),
                    pv(*self),
                    allbits,
                ),
            decreases 64 - b,
        {
            proof {
                assert(allbits[b as int] == ((bits & 1) == 1));
                assert(allbits.skip(b as int).len() == 64 - b);
                assert(allbits.skip(b as int)[0] == allbits[b as int]);
                assert(allbits.skip(b as int).skip(1) =~= allbits.skip(b as int + 1));
            }
            if bits & 1 == 1 {
                result = result.add(temp);
            }
            temp = temp.double();
            proof {
                if b + 1 < 64 {
                    let b64: u64 = b as u64;
                    assert((n >> b64) >> 1u64 == n >> ((b64 + 1) as u64)) by (bit_vector)
                        requires
                            b64 < 63,
                    ;
                }
            }
            bits = bits >> 1u64;
            b += 1;
        }
        proof {
            assert(allbits.skip(64int) =~= Seq::<bool>::empty());
        }
        result
    }

    /// Fixed-window (width four) scalar multiplication.
    pub fn scalar_mul_windowed(&self, scalar: &ScalarField) -> (r: Affine)
        requires
            pt_wf(*self),
            sf_wf(*scalar),
        ensures
            pt_wf(r),
            pv(*self).inf ==> pv(r) == infinity_v(),
            !pv(*self).inf ==> pv(r) == windowed_mul_v(mont_val(*scalar), pv(*self)),
    {
        if self.is_infinity {
            return Affine::infinity();
        }
        let mut table: Vec<Affine> = Vec::new();
        table.push(Affine::infinity());
        table.push(*self);
        let mut i: usize = 2;
        while i < 16
            invariant
                2 <= i <= 16,
                pt_wf(*self),
                table@.len() == i,
                forall|t: int| 0 <= t < i ==> pt_wf(#[trigger] table@[t]),
                forall|t: int| 0 <= t < i ==> pv(#[trigger] table@[t]) == wtab_v(pv(*self), t),
            decreases 16 - i,
        {
            let next = if i % 2 == 0 {
                table[i / 2].double()
            } else {
                table[i - 1].add(table[1])
            };
            table.push(next);
            i += 1;
        }
        let limbs: [u64; 4] = scalar.to_canonical_u64_vec();
        let ghost x = mont_val(*scalar);
        let mut result = Affine::infinity();
        let mut pos: usize = 64;
        while pos > 0
            invariant
                pos <= 64,
                pt_wf(result),
                pt_wf(*self),
                x == crate::scalarfield::val4(limbs),
                table@.len() == 16,
                forall|t: int| 0 <= t < 16 ==> pt_wf(#[trigger] table@[t]),
                forall|t: int| 0 <= t < 16 ==> pv(#[trigger] table@[t]) == wtab_v(pv(*self), t),
                pv(result) == win_rec(x, pv(*self), 64 - pos),
            decreases pos,
        {
            pos -= 1;
            let li: usize = pos / 16;
            let sh: u64 = ((pos % 16) * 4) as u64;
            let ghost before = pv(result);
            let mut d: usize = 0;
            while d < 4
                invariant
                    d <= 4,
                    pt_wf(result),
                    pv(result) == crate::msm::double_n_v(before, d as int),
                decreases 4 - d,
            {
                result = result.double();
                d += 1;
            }
            proof {
                crate::scalarfield::lemma_val4_window(limbs, 4 * pos as int, 4);
                vstd::bits::lemma_low_bits_mask_values();
                assert((4 * pos as int) / 64 == pos as int / 16 && (4 * pos as int) % 64 == (
                pos as int % 16) * 4) by (nonlinear_arith)
                    requires
                        0 <= pos < 64,
                ;
                vstd::arithmetic::power2::lemma2_to64();
            }
            let window: u64 = (limbs[li] >> sh) & 0xF;
            proof {
                assert(window == value_nib(x, pos as int));
            }
            if window != 0 {
                result = result.add(table[window as usize]);
            }
            proof {
                assert(pv(result) == win_step_v(before, pv(*self), value_nib(x, pos as int)));
            }
        }
        result
    }

    /// Naive multi-scalar multiplication: the sum of the pairwise products.
    pub fn multi_scalar_mul(points: &[Affine], scalars: &[ScalarField]) -> (r: Affine)
        requires
            points@.len() == scalars@.len(),
            forall|i: int| 0 <= i < points@.len() ==> pt_wf(#[trigger] points@[i]),
            forall|i: int| 0 <= i < scalars@.len() ==> sf_wf(#[trigger] scalars@[i]),
        ensures
            pt_wf(r),
            pv(r) == msm_rec(points@, scalars@, points@.len() as int),
    {
        let mut result = Affine::infinity();
        let n: usize = points.len();
        let mut i: usize = 0;
        while i < n
            invariant
                i <= n,
                n == points@.len(),
                points@.len() == scalars@.len(),
                forall|t: int| 0 <= t < points@.len() ==> pt_wf(#[trigger] points@[t]),
                forall|t: int| 0 <= t < scalars@.len() ==> sf_wf(#[trigger] scalars@[t]),
                pt_wf(result),
                pv(result) == msm_rec(points@, scalars@, i as int),
            decreases n - i,
        {
            let term = points[i].scalar_mul(&scalars[i]);
            result = result.add(term);
            i += 1;
        }
        result
    }

    /// The identity element.
    pub fn identity() -> (r: Affine)
        ensures
            pt_wf(r),
            pv(r) == infinity_v(),
    {
        Affine::infinity()
    }

    /// Whether this point is the identity.
    pub fn is_identity(&self) -> (r: bool)
        ensures
            r == pv(*self).inf,
    {
        self.is_infinity
    }
}

impl crate::group::Group for Affine {
    type Scalar = ScalarField;

    open spec fn g_wf(&self) -> bool {
        pt_wf(*self)
    }

    fn identity() -> (r: Affine) {
        Affine::infinity()
    }

    fn is_identity(&self) -> bool {
        self.is_infinity
    }

    fn generator() -> (r: Affine) {
        Affine::generator()
    }

    fn mul_generator(scalar: &ScalarField) -> (r: Affine) {
        Affine::mul_generator(scalar)
    }

    fn double(&self) -> (r: Affine) {
        Affine::double(self)
    }

    fn negate(&self) -> (r: Affine) {
        Affine::negate(self)
    }

    fn add_element(&self, other: &Affine) -> (r: Affine) {
        Affine::add(*self, *other)
    }

    fn scalar_mul(&self, scalar: &ScalarField) -> (r: Affine) {
        Affine::scalar_mul(self, scalar)
    }

    fn scalar_mul_windowed(&self, scalar: &ScalarField) -> (r: Affine) {
        Affine::scalar_mul_windowed(self, scalar)
    }

    fn mul_u64(&self, n: u64) -> (r: Affine) {
        Affine::mul_u64(self, n)
    }

    fn multi_scalar_mul(points: &[Affine], scalars: &[ScalarField]) -> (r: Affine) {
        Affine::multi_scalar_mul(points, scalars)
    }
}

} // verus!
