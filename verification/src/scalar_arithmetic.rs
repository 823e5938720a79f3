//! Scalar decomposition for circuit use: a 252-bit scalar as nine limbs of
//! 28 bits each, small enough for native field arithmetic in the trace.

use vstd::prelude::*;

verus! {

use crate::scalarfield::{
    lemma_val4_window, lemma_val4_window_straddle, mont_val, sf_wf, val4, ScalarField,
};
use vstd::arithmetic::div_mod::{
    lemma_div_denominator, lemma_fundamental_div_mod, lemma_small_mod,
};
use vstd::arithmetic::power2::{lemma2_to64, lemma_pow2_adds, lemma_pow2_pos, pow2};

/// Number of 28-bit limbs needed for a 252-bit scalar.
pub const SCALAR_LIMBS: usize = 9;

/// Bits per limb.
pub const LIMB_BITS: u32 = 28;

/// Base-2^28 digit `i` of a value.
pub open spec fn digit28(x: int, i: int) -> int {
    (x / (pow2((28 * i) as nat) as int)) % 0x10000000
}

/// The value held by the limbs from index `i` up, Horner-style.
pub open spec fn cs_val_from(limbs: [u32; 9], i: int) -> int
    decreases 9 - i,
{
    if i >= 9 || i < 0 {
        0
    } else {
        limbs[i] + 0x10000000 * cs_val_from(limbs, i + 1)
    }
}

/// The value represented by nine 28-bit limbs.
pub open spec fn cs_val(limbs: [u32; 9]) -> int {
    cs_val_from(limbs, 0)
}

/// Every limb is below 2^28.
pub open spec fn cs_wf(s: CircuitScalar) -> bool {
    forall|i: int| 0 <= i < 9 ==> s.limbs[i] < 0x10000000
}

/// A scalar field element as nine little-endian 28-bit limbs held in
/// base-field elements.
#[derive(Clone, Copy, Debug, PartialEq, Eq)]
pub struct CircuitScalar {
    /// Limbs in little-endian order, each below 2^28.
    pub limbs: [u32; 9],
}

/// Digits reassemble the value they were taken from.
proof fn lemma_digits_rebuild(limbs: [u32; 9], x: int, i: int)
    requires
        0 <= i <= 9,
        0 <= x,
        x < pow2((28 * (9 - i)) as nat),
        forall|t: int| i <= t < 9 ==> limbs[t] == digit28(x, t - i),
    ensures
        cs_val_from(limbs, i) == x,
    decreases 9 - i,
{
    lemma2_to64();
    if i == 9 {
        assert(pow2(0) == 1);
    } else {
        let b: int = 0x10000000;
        lemma_pow2_pos(28);
        assert(pow2(28) == b);
        lemma_fundamental_div_mod(x, b);
        assert(limbs[i] == digit28(x, 0));
        assert(pow2(0) == 1);
        vstd::arithmetic::div_mod::lemma_div_basics(x);
        assert(digit28(x, 0) == x % b);
        let x1 = x / b;
        lemma_pow2_adds(28, (28 * (8 - i)) as nat);
        assert(pow2((28 * (9 - i)) as nat) == b * pow2((28 * (8 - i)) as nat));
        assert(x1 < pow2((28 * (8 - i)) as nat) as int) by {
            vstd::arithmetic::div_mod::lemma_multiply_divide_lt(
                x,
                b,
                pow2((28 * (8 - i)) as nat) as int,
            );
        }
        assert forall|t: int| i + 1 <= t < 9 implies limbs[t] == digit28(x1, t - i - 1) by {
            assert(limbs[t] == digit28(x, t - i));
            lemma_pow2_pos((28 * (t - i - 1)) as nat);
            lemma_pow2_adds(28, (28 * (t - i - 1)) as nat);
            lemma_div_denominator(x, b, pow2((28 * (t - i - 1)) as nat) as int);
            assert(x / (pow2((28 * (t - i)) as nat) as int) == x1 / (pow2(
                (28 * (t - i - 1)) as nat,
            ) as int));
        }
        lemma_digits_rebuild(limbs, x1, i + 1);
    }
}

impl CircuitScalar {
    /// Decompose a scalar into its base-2^28 digits.
    pub fn from_scalar_field(scalar: ScalarField) -> (r: CircuitScalar)
        requires
            sf_wf(scalar),
        ensures
            cs_wf(r),
            forall|i: int| 0 <= i < 9 ==> r.limbs[i] == digit28(mont_val(scalar), i),
            cs_val(r.limbs) == mont_val(scalar),
    {
        let canonical: [u64; 4] = scalar.to_canonical_u64_vec();
        let ghost x = mont_val(scalar);
        proof {
            crate::scalarfield::lemma_pow2_val();
            vstd::arithmetic::power2::lemma2_to64_rest();
            lemma_pow2_adds(192, 56);
            assert(x < pow2(248));
        }
        let mut limbs: [u32; 9] = [0, 0, 0, 0, 0, 0, 0, 0, 0];
        let mut i: usize = 0;
        while i < 9
            invariant
                i <= 9,
                x == val4(canonical),
                0 <= x < pow2(248),
                forall|t: int| 0 <= t < i ==> limbs[t] == digit28(x, t),
                forall|t: int| 0 <= t < i ==> limbs[t] < 0x10000000,
            decreases 9 - i,
        {
            let word_idx: usize = (28 * i) / 64;
            let bit_offset: u64 = ((28 * i) % 64) as u64;
            proof {
                lemma2_to64();
                vstd::bits::lemma_low_bits_mask_values();
                lemma_pow2_pos((28 * i) as nat);
            }
            let low: u64 = (canonical[word_idx] >> bit_offset) & 0x0FFFFFFF;
            let limb_value: u64 = if bit_offset + 28 > 64 {
                proof {
                    lemma_val4_window_straddle(canonical, 28 * i as int, 28);
                    let m = (28 * i as int) % 64;
                    let lw: u64 = canonical[word_idx as int];
                    let m64: u64 = m as u64;
                    assert((lw >> m64) & 0x0FFFFFFF == lw >> m64) by (bit_vector)
                        requires
                            m64 > 36 && m64 < 64,
                    ;
                }
                let bits_from_next: u64 = bit_offset + 28 - 64;
                let mask: u64 = if bits_from_next == 20 {
                    0xFFFFF
                } else if bits_from_next == 12 {
                    0xFFF
                } else {
                    0xF
                };
                proof {
                    assert(mask == vstd::bits::low_bits_mask(
                        ((28 * i as int) % 64 + 28 - 64) as nat,
                    ));
                    lemma2_to64();
                }
                let next_bits: u64 = canonical[word_idx + 1] & mask;
                proof {
                    let nb: u64 = canonical[word_idx as int + 1];
                    assert(nb & mask <= mask) by (bit_vector);
                }
                low + next_bits * (if bits_from_next == 20 {
                    0x100
                } else if bits_from_next == 12 {
                    0x10000
                } else {
                    0x1000000
                })
            } else {
                proof {
                    lemma_val4_window(canonical, 28 * i as int, 28);
                }
                low
            };
            proof {
                assert(limb_value == digit28(x, i as int));
                assert(0 <= digit28(x, i as int) < 0x10000000);
            }
            limbs[i] = limb_value as u32;
            i += 1;
        }
        let r = CircuitScalar { limbs };
        proof {
            vstd::arithmetic::power2::lemma_pow2_strictly_increases(248, 252);
            lemma_digits_rebuild(limbs, x, 0);
        }
        r
    }

    /// Reassemble the scalar: the represented value is the limb sum
    /// `sum limbs[i] * 2^(28 i)`, reduced modulo the field order.
    pub fn to_scalar_field(&self) -> (r: ScalarField)
        requires
            cs_wf(*self),
        ensures
            sf_wf(r),
            mont_val(r) == cs_val(self.limbs) % crate::scalarfield::modulus(),
    {
        let radix = ScalarField::from_canonical_u64(0x10000000);
        let mut acc = ScalarField::zero();
        proof {
            crate::scalarfield::lemma_mont_facts();
            vstd::arithmetic::div_mod::lemma_mod_self_0(crate::scalarfield::modulus());
        }
        let mut i: usize = 9;
        while i > 0
            invariant
                i <= 9,
                cs_wf(*self),
                crate::scalarfield::sf_wf(acc),
                crate::scalarfield::sf_wf(radix),
                mont_val(radix) == 0x10000000,
                mont_val(acc) == cs_val_from(self.limbs, i as int) % crate::scalarfield::modulus(),
            decreases i,
        {
            i -= 1;
            let d = ScalarField::from_canonical_u64(self.limbs[i] as u64);
            let ghost md = crate::scalarfield::modulus();
            let ghost rest = cs_val_from(self.limbs, i as int + 1);
            let shifted = acc.mul(radix);
            proof {
                // (rest % q * 2^28) % q == (rest * 2^28) % q
                vstd::arithmetic::div_mod::lemma_mul_mod_noop_left(rest, 0x10000000, md);
                vstd::arithmetic::div_mod::lemma_mul_mod_noop_left(rest % md, 0x10000000, md);
            }
            acc = shifted.add(d);
            proof {
                let dv: int = self.limbs[i as int] as int;
                lemma_small_mod(dv as nat, md as nat);
                vstd::arithmetic::div_mod::lemma_add_mod_noop(rest * 0x10000000, dv, md);
                assert(0x10000000 * rest == rest * 0x10000000) by (nonlinear_arith);
                assert(mont_val(acc) == (dv + 0x10000000 * rest) % md);
            }
        }
        acc
    }
}

/// Decomposing a canonical scalar and reassembling it returns the same
/// field element.
pub proof fn lemma_circuit_scalar_roundtrip(s: ScalarField, c: CircuitScalar, r: ScalarField)
    requires
        sf_wf(s),
        cs_val(c.limbs) == mont_val(s),
        mont_val(r) == cs_val(c.limbs) % crate::scalarfield::modulus(),
    ensures
        mont_val(r) == mont_val(s),
{
    lemma_small_mod(mont_val(s) as nat, crate::scalarfield::modulus() as nat);
}

} // verus!
