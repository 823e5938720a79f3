//! Group-level traits shared by the two point representations.

use vstd::prelude::*;

verus! {

/// A scalar type that can expose its canonical 256-bit representation.
pub trait ScalarBits {
    /// Well-formedness of the scalar.
    spec fn sb_wf(&self) -> bool;

    /// The canonical little-endian limbs of the scalar.
    fn to_u64_limbs(&self) -> (r: [u64; 4])
        requires
            self.sb_wf(),
    ;
}

/// Basic additive group behaviour shared by curve point types.
pub trait Group: Sized + Clone + Copy {
    /// The scalar type acting on the group.
    type Scalar: ScalarBits;

    /// Well-formedness of a group element.
    spec fn g_wf(&self) -> bool;

    /// The identity element.
    fn identity() -> (r: Self)
        ensures
            r.g_wf(),
    ;

    /// Whether this element is the identity.
    fn is_identity(&self) -> bool
        requires
            self.g_wf(),
    ;

    /// A fixed generator of the group.
    fn generator() -> (r: Self)
        ensures
            r.g_wf(),
    ;

    /// Multiply the fixed generator by a scalar.
    fn mul_generator(scalar: &Self::Scalar) -> (r: Self)
        requires
            scalar.sb_wf(),
        ensures
            r.g_wf(),
    ;

    /// Twice this element.
    fn double(&self) -> (r: Self)
        requires
            self.g_wf(),
        ensures
            r.g_wf(),
    ;

    /// The additive inverse of this element.
    fn negate(&self) -> (r: Self)
        requires
            self.g_wf(),
        ensures
            r.g_wf(),
    ;

    /// The group sum of two elements.
    fn add_element(&self, other: &Self) -> (r: Self)
        requires
            self.g_wf(),
            other.g_wf(),
        ensures
            r.g_wf(),
    ;

    /// Double-and-add scalar multiplication.
    fn scalar_mul(&self, scalar: &Self::Scalar) -> (r: Self)
        requires
            self.g_wf(),
            scalar.sb_wf(),
        ensures
            r.g_wf(),
    ;

    /// Fixed-window (width four) scalar multiplication.
    fn scalar_mul_windowed(&self, scalar: &Self::Scalar) -> (r: Self)
        requires
            self.g_wf(),
            scalar.sb_wf(),
        ensures
            r.g_wf(),
    ;

    /// Multiply by a small machine integer.
    fn mul_u64(&self, n: u64) -> (r: Self)
        requires
            self.g_wf(),
        ensures
            r.g_wf(),
    ;

    /// Naive multi-scalar multiplication `sum s_i * P_i`.
    fn multi_scalar_mul(points: &[Self], scalars: &[Self::Scalar]) -> (r: Self)
        requires
            points@.len() == scalars@.len(),
            forall|i: int| 0 <= i < points@.len() ==> points@[i].g_wf(),
            forall|i: int| 0 <= i < scalars@.len() ==> scalars@[i].sb_wf(),
        ensures
            r.g_wf(),
    ;
}


impl ScalarBits for crate::scalarfield::ScalarField {
    open spec fn sb_wf(&self) -> bool {
        crate::scalarfield::sf_wf(*self)
    }

    fn to_u64_limbs(&self) -> (r: [u64; 4]) {
        self.to_canonical_u64_vec()
    }
}

} // verus!
