//! Projective points `(X : Y : Z)` with the identity at `(0 : 1 : 0)`.
//!
//! The projective model exists for API parity with the affine one: every
//! operation normalizes through affine coordinates, so the two models agree
//! by construction.

use vstd::prelude::*;

verus! {

use crate::affine::{
    add_v, dba_v, double_v, generator_pedersen_v, generator_v, infinity_v, pointv_wf, pt_wf, pv,
    u64_bits, windowed_mul_v, Affine, PointV,
};
use crate::basefield::{
    fp8_inverse, fp8_inverse_v, fp8_mul, fp8_neg, fp8_one_v, fp8_wf, fp8_zero_v,
    lemma_inverse_one, lemma_mulv_one, lemma_v8_zero, mulv, negv, v8, Fp8,
};
use crate::scalarfield::{mont_val, scalar_bits, sf_wf, ScalarField};

/// The mathematical model of a projective point: three coefficient
/// sequences.
#[verifier::ext_equal]
pub ghost struct ProjV {
    pub x: Seq<int>,
    pub y: Seq<int>,
    pub z: Seq<int>,
}

/// The model of the projective identity `(0 : 1 : 0)`.
pub open spec fn proj_infinity_v() -> ProjV {
    ProjV { x: fp8_zero_v(), y: fp8_one_v(), z: fp8_zero_v() }
}

/// The affine point that a projective model point denotes.
pub open spec fn to_affine_v(p: ProjV) -> PointV {
    if p.z == fp8_zero_v() {
        infinity_v()
    } else {
        let zi = fp8_inverse_v(p.z);
        PointV { x: mulv(p.x, zi), y: mulv(p.y, zi), inf: false }
    }
}

/// The projective embedding of an affine model point.
pub open spec fn from_affine_v(q: PointV) -> ProjV {
    if q.inf {
        proj_infinity_v()
    } else {
        ProjV { x: q.x, y: q.y, z: fp8_one_v() }
    }
}

/// Embedding an affine point and reading it back returns the same point.
pub proof fn lemma_proj_affine_roundtrip(q: PointV)
    requires
        pointv_wf(q),
        crate::affine::pointv_canon(q),
    ensures
        to_affine_v(from_affine_v(q)) == q,
{
    if q.inf {
        assert(to_affine_v(from_affine_v(q)) =~= q);
    } else {
        assert(fp8_one_v()[0] == 1);
        assert(fp8_one_v() != fp8_zero_v()) by {
            assert(fp8_zero_v()[0] == 0);
        }
        lemma_inverse_one();
        lemma_mulv_one(q.x);
        lemma_mulv_one(q.y);
        assert(to_affine_v(from_affine_v(q)) =~= q);
    }
}

/// The projective and affine sums agree: adding two embedded affine points
/// and reading the result back is the affine sum.
pub proof fn lemma_proj_add_agrees(p: PointV, q: PointV)
    requires
        pointv_wf(p),
        pointv_wf(q),
        crate::affine::pointv_canon(p),
        crate::affine::pointv_canon(q),
        pointv_wf(add_v(p, q)),
    ensures
        to_affine_v(proj_add_v(from_affine_v(p), from_affine_v(q))) == add_v(p, q),
{
    assert(fp8_one_v()[0] == 1 && fp8_zero_v()[0] == 0);
    lemma_proj_affine_roundtrip(p);
    lemma_proj_affine_roundtrip(q);
    if !p.inf && !q.inf {
        assert(crate::affine::pointv_canon(add_v(p, q)));
        lemma_proj_affine_roundtrip(add_v(p, q));
    }
}


/// The projective and affine doublings agree: doubling an embedded affine
/// point and reading the result back is the affine doubling.
pub proof fn lemma_proj_double_agrees(p: PointV)
    requires
        pointv_wf(p),
        crate::affine::pointv_canon(p),
        pointv_wf(double_v(p)),
    ensures
        to_affine_v(proj_double_v(from_affine_v(p))) == double_v(p),
{
    assert(fp8_one_v()[0] == 1 && fp8_zero_v()[0] == 0);
    lemma_proj_affine_roundtrip(p);
    if !p.inf {
        assert(crate::affine::pointv_canon(double_v(p)));
        lemma_proj_affine_roundtrip(double_v(p));
    }
}

/// The projective sum: identity absorbs without normalization, otherwise
/// both operands normalize to affine, add there, and embed back.
pub open spec fn proj_add_v(p: ProjV, q: ProjV) -> ProjV {
    if p.z == fp8_zero_v() {
        q
    } else if q.z == fp8_zero_v() {
        p
    } else {
        from_affine_v(add_v(to_affine_v(p), to_affine_v(q)))
    }
}

/// The projective doubling: identity stays, otherwise through affine.
pub open spec fn proj_double_v(p: ProjV) -> ProjV {
    if p.z == fp8_zero_v() {
        p
    } else {
        from_affine_v(double_v(to_affine_v(p)))
    }
}

/// Projective point with in-band identity `Z = 0`.
#[derive(Clone, Copy, Debug, PartialEq, Eq)]
pub struct Projective {
    /// The X coordinate.
    pub x: Fp8,
    /// The Y coordinate.
    pub y: Fp8,
    /// The Z coordinate; zero encodes the identity.
    pub z: Fp8,
}

/// All three coordinates hold canonical coefficients.
pub open spec fn proj_wf(p: Projective) -> bool {
    fp8_wf(p.x) && fp8_wf(p.y) && fp8_wf(p.z)
}

/// The mathematical model of a projective point.
pub open spec fn pjv(p: Projective) -> ProjV {
    ProjV { x: v8(p.x), y: v8(p.y), z: v8(p.z) }
}

impl Projective {
    /// The identity `(0 : 1 : 0)`.
    pub fn infinity() -> (r: Projective)
        ensures
            proj_wf(r),
            pjv(r) == proj_infinity_v(),
    {
        let r = Projective { x: Fp8::zero(), y: Fp8::one(), z: Fp8::zero() };
        proof {
            assert(v8(r.x) =~= fp8_zero_v());
            assert(v8(r.y) =~= fp8_one_v());
            assert(v8(r.z) =~= fp8_zero_v());
            assert(pjv(r) =~= proj_infinity_v());
        }
        r
    }

    /// A point from its three coordinates.
    pub fn new(x: Fp8, y: Fp8, z: Fp8) -> (r: Projective)
        requires
            fp8_wf(x),
            fp8_wf(y),
            fp8_wf(z),
        ensures
            proj_wf(r),
            pjv(r) == (ProjV { x: v8(x), y: v8(y), z: v8(z) }),
    {
        Projective { x, y, z }
    }

    /// Whether this point is the identity.
    pub fn is_infinity(&self) -> (r: bool)
        ensures
            r <==> pjv(*self).z == fp8_zero_v(),
    {
        proof {
            lemma_v8_zero(self.z);
        }
        self.z.is_zero()
    }

    /// Normalize to affine coordinates.
    pub fn to_affine(&self) -> (r: Affine)
        requires
            proj_wf(*self),
        ensures
            pt_wf(r),
            pv(r) == to_affine_v(pjv(*self)),
    {
        proof {
            lemma_v8_zero(self.z);
        }
        if self.z.is_zero() {
            return Affine::infinity();
        }
        let z_inv = fp8_inverse(&self.z);
        let x = fp8_mul(&self.x, &z_inv);
        let y = fp8_mul(&self.y, &z_inv);
        let r = Affine::new(x, y);
        proof {
            assert(pv(r) =~= to_affine_v(pjv(*self)));
        }
        r
    }

    /// Embed an affine point.
    pub fn from_affine(point: &Affine) -> (r: Projective)
        requires
            pt_wf(*point),
        ensures
            proj_wf(r),
            pjv(r) == from_affine_v(pv(*point)),
    {
        if point.is_infinity() {
            return Projective::infinity();
        }
        let r = Projective::new(point.x, point.y, Fp8::one());
        proof {
            assert(v8(r.z) =~= fp8_one_v());
            assert(pjv(r) =~= from_affine_v(pv(*point)));
        }
        r
    }

    /// Whether the point satisfies the projective curve equation
    /// `Y^2 Z = X^3 + a X Z^2 + b Z^3`.
    pub fn is_on_curve(&self) -> (r: bool)
        requires
            proj_wf(*self),
        ensures
            r <==> proj_on_curve_v(pjv(*self)),
    {
        proof {
            lemma_v8_zero(self.z);
        }
        if self.z.is_zero() {
            return true;
        }
        let y2 = fp8_mul(&self.y, &self.y);
        let x2 = fp8_mul(&self.x, &self.x);
        let x3 = fp8_mul(&x2, &self.x);
        let z2 = fp8_mul(&self.z, &self.z);
        let z3 = fp8_mul(&z2, &self.z);
        let lhs = fp8_mul(&y2, &self.z);
        let ax = fp8_mul(&Affine::curve_a(), &self.x);
        let axz2 = fp8_mul(&ax, &z2);
        let bz3 = fp8_mul(&Affine::curve_b(), &z3);
        let rhs = crate::basefield::fp8_add(&crate::basefield::fp8_add(&x3, &axz2), &bz3);
        let r = lhs.equals(&rhs);
        proof {
            crate::basefield::lemma_v8_eq(lhs, rhs);
        }
        r
    }

    /// The generator, embedded from affine.
    pub fn generator() -> (r: Projective)
        ensures
            proj_wf(r),
            pjv(r) == from_affine_v(generator_v()),
    {
        Projective::from_affine(&Affine::generator())
    }

    /// The Pedersen generator, embedded from affine.
    pub fn generator_pedersen() -> (r: Projective)
        ensures
            proj_wf(r),
            pjv(r) == from_affine_v(generator_pedersen_v()),
    {
        Projective::from_affine(&Affine::generator_pedersen())
    }

    /// Doubling through affine normalization.
    pub fn double(&self) -> (r: Projective)
        requires
            proj_wf(*self),
        ensures
            proj_wf(r),
            pjv(r) == proj_double_v(pjv(*self)),
    {
        proof {
            lemma_v8_zero(self.z);
        }
        if self.z.is_zero() {
            return *self;
        }
        let affine = self.to_affine();
        let doubled = affine.double();
        Projective::from_affine(&doubled)
    }

    /// Negation: the Y coordinate flips.
    pub fn negate(&self) -> (r: Projective)
        requires
            proj_wf(*self),
        ensures
            proj_wf(r),
            pjv(r) == proj_neg_v(pjv(*self)),
    {
        proof {
            lemma_v8_zero(self.z);
        }
        if self.z.is_zero() {
            return *self;
        }
        let r = Projective::new(self.x, fp8_neg(&self.y), self.z);
        proof {
            assert(pjv(r) =~= proj_neg_v(pjv(*self)));
        }
        r
    }

    /// Addition through affine normalization; the identity absorbs.
    pub fn add(self, other: Projective) -> (r: Projective)
        requires
            proj_wf(self),
            proj_wf(other),
        ensures
            proj_wf(r),
            pjv(r) == proj_add_v(pjv(self), pjv(other)),
    {
        proof {
            lemma_v8_zero(self.z);
            lemma_v8_zero(other.z);
        }
        if self.z.is_zero() {
            return other;
        }
        if other.z.is_zero() {
            return self;
        }
        let affine1 = self.to_affine();
        let affine2 = other.to_affine();
        let result_affine = affine1.add(affine2);
        Projective::from_affine(&result_affine)
    }

    /// Subtraction: adding the negation.
    pub fn sub(self, other: Projective) -> (r: Projective)
        requires
            proj_wf(self),
            proj_wf(other),
        ensures
            proj_wf(r),
            pjv(r) == proj_add_v(pjv(self), proj_neg_v(pjv(other))),
    {
        self.add(other.negate())
    }

    /// Coordinate-wise equality of the representation.
    pub fn equals(&self, other: &Projective) -> (r: bool)
        ensures
            r <==> pjv(*self) == pjv(*other),
    {
        proof {
            crate::basefield::lemma_v8_eq(self.x, other.x);
            crate::basefield::lemma_v8_eq(self.y, other.y);
            crate::basefield::lemma_v8_eq(self.z, other.z);
        }
        let r = self.x.equals(&other.x) && self.y.equals(&other.y) && self.z.equals(&other.z);
        proof {
            if r {
                assert(pjv(*self) =~= pjv(*other));
            } else {
                assert(pjv(*self) != pjv(*other));
            }
        }
        r
    }

    /// Double-and-add scalar multiplication, through the affine model.
    pub fn scalar_mul(&self, scalar: &ScalarField) -> (r: Projective)
        requires
            proj_wf(*self),
            sf_wf(*scalar),
        ensures
            proj_wf(r),
            pjv(r) == from_affine_v(
                dba_v(
                    infinity_v(),
                    to_affine_v(pjv(*self)),
                    scalar_bits(mont_val(*scalar)),
                ),
            ),
    {
        let affine = self.to_affine();
        let result = affine.scalar_mul(scalar);
        Projective::from_affine(&result)
    }

    /// Fixed-window scalar multiplication, through the affine model.
    pub fn scalar_mul_windowed(&self, scalar: &ScalarField) -> (r: Projective)
        requires
            proj_wf(*self),
            sf_wf(*scalar),
        ensures
            proj_wf(r),
            to_affine_v(pjv(*self)).inf ==> pjv(r) == proj_infinity_v(),
            !to_affine_v(pjv(*self)).inf ==> pjv(r) == from_affine_v(
                windowed_mul_v(mont_val(*scalar), to_affine_v(pjv(*self))),
            ),
    {
        let affine = self.to_affine();
        let result = affine.scalar_mul_windowed(scalar);
        Projective::from_affine(&result)
    }

    /// Multiply by a small machine integer, through the affine model.
    pub fn mul_u64(&self, n: u64) -> (r: Projective)
        requires
            proj_wf(*self),
        ensures
            proj_wf(r),
            pjv(r) == from_affine_v(dba_v(infinity_v(), to_affine_v(pjv(*self)), u64_bits(n))),
    {
        let affine = self.to_affine();
        let result = affine.mul_u64(n);
        Projective::from_affine(&result)
    }

    /// Multiply the fixed generator.
    pub fn mul_generator(scalar: &ScalarField) -> (r: Projective)
        requires
            sf_wf(*scalar),
        ensures
            proj_wf(r),
            pjv(r) == from_affine_v(crate::msm::gen_mul_v(mont_val(*scalar))),
    {
        Projective::from_affine(&crate::msm::mul_generator_affine(scalar))
    }

    /// Compute `a * G + b * P`, where `G` is the fixed generator.
    pub fn double_scalar_mul_basepoint(a: &ScalarField, b: &ScalarField, point: &Projective) -> (r:
        Projective)
        requires
            sf_wf(*a),
            sf_wf(*b),
            proj_wf(*point),
        ensures
            proj_wf(r),
            pjv(r) == from_affine_v(
                crate::msm::dsm_v(mont_val(*a), mont_val(*b), to_affine_v(pjv(*point))),
            ),
    {
        let affine_point = point.to_affine();
        Projective::from_affine(
            &crate::msm::double_scalar_mul_basepoint_affine(a, b, &affine_point),
        )
    }

    /// Normalize a batch of points to affine coordinates.
    pub fn batch_normalize(points: &[Projective]) -> (r: Vec<Affine>)
        requires
            forall|i: int| 0 <= i < points@.len() ==> proj_wf(#[trigger] points@[i]),
        ensures
            r@.len() == points@.len(),
            forall|i: int| 0 <= i < r@.len() ==> pt_wf(#[trigger] r@[i]),
            forall|i: int| 0 <= i < r@.len() ==> pv(#[trigger] r@[i]) == to_affine_v(pjv(points@[i])),
    {
        let mut out: Vec<Affine> = Vec::new();
        let mut i: usize = 0;
        while i < points.len()
            invariant
                i <= points@.len(),
                forall|t: int| 0 <= t < points@.len() ==> proj_wf(#[trigger] points@[t]),
                out@.len() == i,
                forall|t: int| 0 <= t < i ==> pt_wf(#[trigger] out@[t]),
                forall|t: int| 0 <= t < i ==> pv(#[trigger] out@[t]) == to_affine_v(pjv(points@[t])),
            decreases points@.len() - i,
        {
            let a = points[i].to_affine();
            out.push(a);
            i += 1;
        }
        out
    }

    /// Naive multi-scalar multiplication, through the affine model.
    pub fn multi_scalar_mul(points: &[Projective], scalars: &[ScalarField]) -> (r: Projective)
        requires
            points@.len() == scalars@.len(),
            forall|i: int| 0 <= i < points@.len() ==> proj_wf(#[trigger] points@[i]),
            forall|i: int| 0 <= i < scalars@.len() ==> sf_wf(#[trigger] scalars@[i]),
        ensures
            proj_wf(r),
    {
        let affines = Projective::batch_normalize(points);
        let r = Affine::multi_scalar_mul(affines.as_slice(), scalars);
        Projective::from_affine(&r)
    }
}

/// The projective negation model.
pub open spec fn proj_neg_v(p: ProjV) -> ProjV {
    if p.z == fp8_zero_v() {
        p
    } else {
        ProjV { x: p.x, y: negv(p.y), z: p.z }
    }
}

/// The projective curve equation `Y^2 Z = X^3 + a X Z^2 + b Z^3`; the
/// identity satisfies it.
pub open spec fn proj_on_curve_v(p: ProjV) -> bool {
    p.z == fp8_zero_v() || {
        let y2 = mulv(p.y, p.y);
        let x2 = mulv(p.x, p.x);
        let x3 = mulv(x2, p.x);
        let z2 = mulv(p.z, p.z);
        let z3 = mulv(z2, p.z);
        let lhs = mulv(y2, p.z);
        let ax = mulv(crate::affine::curve_a_v(), p.x);
        let axz2 = mulv(ax, z2);
        let bz3 = mulv(crate::affine::curve_b_v(), z3);
        lhs == crate::basefield::addv(crate::basefield::addv(x3, axz2), bz3)
    }
}

impl crate::group::Group for Projective {
    type Scalar = ScalarField;

    open spec fn g_wf(&self) -> bool {
        proj_wf(*self)
    }

    fn identity() -> (r: Projective) {
        Projective::infinity()
    }

    fn is_identity(&self) -> bool {
        self.is_infinity()
    }

    fn generator() -> (r: Projective) {
        Projective::generator()
    }

    fn mul_generator(scalar: &ScalarField) -> (r: Projective) {
        Projective::mul_generator(scalar)
    }

    fn double(&self) -> (r: Projective) {
        Projective::double(self)
    }

    fn negate(&self) -> (r: Projective) {
        Projective::negate(self)
    }

    fn add_element(&self, other: &Projective) -> (r: Projective) {
        Projective::add(*self, *other)
    }

    fn scalar_mul(&self, scalar: &ScalarField) -> (r: Projective) {
        Projective::scalar_mul(self, scalar)
    }

    fn scalar_mul_windowed(&self, scalar: &ScalarField) -> (r: Projective) {
        Projective::scalar_mul_windowed(self, scalar)
    }

    fn mul_u64(&self, n: u64) -> (r: Projective) {
        Projective::mul_u64(self, n)
    }

    fn multi_scalar_mul(points: &[Projective], scalars: &[ScalarField]) -> (r: Projective) {
        Projective::multi_scalar_mul(points, scalars)
    }
}

} // verus!
