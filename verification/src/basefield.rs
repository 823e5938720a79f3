//! The 31-bit prime coordinate field and its degree-8 binomial extension.
//!
//! Curve coordinates are elements of `F_{p^8}` with `p = 2130706433`,
//! represented as 8 canonical coefficients of `sum c_i * u^i` modulo
//! `u^8 - 3`.

use vstd::prelude::*;

verus! {

use vstd::arithmetic::div_mod::{
    lemma_fundamental_div_mod_converse_mod, lemma_small_mod,
};

/// The 31-bit prime of the coordinate field.
pub const FP: u32 = 2130706433;

/// Reduction constant of the binomial extension: `u^8 = 3`.
pub const FP8_W: u32 = 3;

/// Addition in the prime field.
pub fn fp_add(a: u32, b: u32) -> (r: u32)
    requires
        a < FP,
        b < FP,
    ensures
        r < FP,
        r == (a + b) % (FP as int),
{
    let s: u32 = a + b;
    if s >= FP {
        proof {
            lemma_fundamental_div_mod_converse_mod(a + b, FP as int, 1int, s - FP);
        }
        s - FP
    } else {
        proof {
            lemma_small_mod((a + b) as nat, FP as nat);
        }
        s
    }
}

/// Subtraction in the prime field.
pub fn fp_sub(a: u32, b: u32) -> (r: u32)
    requires
        a < FP,
        b < FP,
    ensures
        r < FP,
        r == (a - b) % (FP as int),
{
    if a >= b {
        proof {
            lemma_small_mod((a - b) as nat, FP as nat);
        }
        a - b
    } else {
        proof {
            lemma_fundamental_div_mod_converse_mod(a - b, FP as int, -1int, a + FP - b);
        }
        a + FP - b
    }
}

/// Negation in the prime field.
pub fn fp_neg(a: u32) -> (r: u32)
    requires
        a < FP,
    ensures
        r < FP,
        r == (FP - a) % (FP as int),
{
    if a == 0 {
        proof {
            vstd::arithmetic::div_mod::lemma_mod_self_0(FP as int);
        }
        0
    } else {
        proof {
            lemma_small_mod((FP - a) as nat, FP as nat);
        }
        FP - a
    }
}

/// Multiplication in the prime field.
pub fn fp_mul(a: u32, b: u32) -> (r: u32)
    requires
        a < FP,
        b < FP,
    ensures
        r < FP,
        r == (a * b) % (FP as int),
{
    proof {
        vstd::arithmetic::mul::lemma_mul_upper_bound(a as int, FP as int - 1, b as int, FP as int - 1);
        assert((FP as int - 1) * (FP as int - 1) == 0x3f01000000000000) by (nonlinear_arith);
    }
    let p: u64 = (a as u64) * (b as u64);
    let r: u64 = p % (FP as u64);
    r as u32
}

/// An element of the degree-8 extension field: canonical coefficients,
/// lowest power of `u` first.
#[derive(Clone, Copy, Debug, PartialEq, Eq)]
pub struct Fp8 {
    pub c: [u32; 8],
}

/// All coefficients are canonical.
pub open spec fn fp8_wf(a: Fp8) -> bool {
    forall|i: int| 0 <= i < 8 ==> a.c[i] < FP
}

/// The zero element.
pub open spec fn fp8_is_zero(a: Fp8) -> bool {
    forall|i: int| 0 <= i < 8 ==> a.c[i] == 0
}

impl Fp8 {
    /// The additive identity.
    pub fn zero() -> (r: Fp8)
        ensures
            fp8_wf(r),
            forall|i: int| 0 <= i < 8 ==> r.c[i] == 0,
    {
        Fp8 { c: [0, 0, 0, 0, 0, 0, 0, 0] }
    }

    /// The multiplicative identity.
    pub fn one() -> (r: Fp8)
        ensures
            fp8_wf(r),
            r.c[0] == 1,
            forall|i: int| 1 <= i < 8 ==> r.c[i] == 0,
    {
        Fp8 { c: [1, 0, 0, 0, 0, 0, 0, 0] }
    }

    /// Embed a canonical prime-field element as the constant coefficient.
    pub fn from_base(x: u32) -> (r: Fp8)
        requires
            x < FP,
        ensures
            fp8_wf(r),
            r.c[0] == x,
            forall|i: int| 1 <= i < 8 ==> r.c[i] == 0,
    {
        Fp8 { c: [x, 0, 0, 0, 0, 0, 0, 0] }
    }

    /// Build an element from its coefficient array.
    pub fn from_coeffs(c: [u32; 8]) -> (r: Fp8)
        requires
            forall|i: int| 0 <= i < 8 ==> c[i] < FP,
        ensures
            fp8_wf(r),
            r.c == c,
    {
        Fp8 { c }
    }

    /// Whether this element is zero.
    pub fn is_zero(&self) -> (r: bool)
        ensures
            r <==> fp8_is_zero(*self),
    {
        let mut i: usize = 0;
        while i < 8
            invariant
                i <= 8,
                forall|j: int| 0 <= j < i ==> self.c[j] == 0,
        decreases 8 - i,
        {
            if self.c[i] != 0 {
                return false;
            }
            i += 1;
        }
        true
    }

    /// Coefficient-wise equality.
    pub fn equals(&self, other: &Fp8) -> (r: bool)
        ensures
            r <==> self.c == other.c,
    {
        let mut i: usize = 0;
        while i < 8
            invariant
                i <= 8,
                forall|j: int| 0 <= j < i ==> self.c[j] == other.c[j],
        decreases 8 - i,
        {
            if self.c[i] != other.c[i] {
                assert(self.c[i as int] != other.c[i as int]);
                return false;
            }
            i += 1;
        }
        proof {
            assert(self.c =~= other.c);
        }
        true
    }
}

/// Coefficient `k` of the sum.
pub open spec fn fp8_add_coeff(a: Fp8, b: Fp8, k: int) -> int {
    (a.c[k] + b.c[k]) % (FP as int)
}

/// Extension-field addition, coefficient-wise.
pub fn fp8_add(a: &Fp8, b: &Fp8) -> (r: Fp8)
    requires
        fp8_wf(*a),
        fp8_wf(*b),
    ensures
        fp8_wf(r),
        forall|k: int| 0 <= k < 8 ==> r.c[k] == fp8_add_coeff(*a, *b, k),
        v8(r) == addv(v8(*a), v8(*b)),
{
    let mut out: [u32; 8] = [0, 0, 0, 0, 0, 0, 0, 0];
    let mut i: usize = 0;
    while i < 8
        invariant
            i <= 8,
            fp8_wf(*a),
            fp8_wf(*b),
            forall|k: int| 0 <= k < i ==> out[k] == fp8_add_coeff(*a, *b, k),
            forall|k: int| 0 <= k < i ==> out[k] < FP,
        decreases 8 - i,
    {
        out[i] = fp_add(a.c[i], b.c[i]);
        i += 1;
    }
    let r = Fp8 { c: out };
    proof {
        assert(v8(r) =~= addv(v8(*a), v8(*b)));
    }
    r
}

/// Coefficient `k` of the difference.
pub open spec fn fp8_sub_coeff(a: Fp8, b: Fp8, k: int) -> int {
    (a.c[k] - b.c[k]) % (FP as int)
}

/// Extension-field subtraction, coefficient-wise.
pub fn fp8_sub(a: &Fp8, b: &Fp8) -> (r: Fp8)
    requires
        fp8_wf(*a),
        fp8_wf(*b),
    ensures
        fp8_wf(r),
        forall|k: int| 0 <= k < 8 ==> r.c[k] == fp8_sub_coeff(*a, *b, k),
        v8(r) == subv(v8(*a), v8(*b)),
{
    let mut out: [u32; 8] = [0, 0, 0, 0, 0, 0, 0, 0];
    let mut i: usize = 0;
    while i < 8
        invariant
            i <= 8,
            fp8_wf(*a),
            fp8_wf(*b),
            forall|k: int| 0 <= k < i ==> out[k] == fp8_sub_coeff(*a, *b, k),
            forall|k: int| 0 <= k < i ==> out[k] < FP,
        decreases 8 - i,
    {
        out[i] = fp_sub(a.c[i], b.c[i]);
        i += 1;
    }
    let r = Fp8 { c: out };
    proof {
        assert(v8(r) =~= subv(v8(*a), v8(*b)));
    }
    r
}

/// Coefficient `k` of the negation.
pub open spec fn fp8_neg_coeff(a: Fp8, k: int) -> int {
    (FP - a.c[k]) % (FP as int)
}

/// Extension-field negation, coefficient-wise.
pub fn fp8_neg(a: &Fp8) -> (r: Fp8)
    requires
        fp8_wf(*a),
    ensures
        fp8_wf(r),
        forall|k: int| 0 <= k < 8 ==> r.c[k] == fp8_neg_coeff(*a, k),
        v8(r) == negv(v8(*a)),
{
    let mut out: [u32; 8] = [0, 0, 0, 0, 0, 0, 0, 0];
    let mut i: usize = 0;
    while i < 8
        invariant
            i <= 8,
            fp8_wf(*a),
            forall|k: int| 0 <= k < i ==> out[k] == fp8_neg_coeff(*a, k),
            forall|k: int| 0 <= k < i ==> out[k] < FP,
        decreases 8 - i,
    {
        out[i] = fp_neg(a.c[i]);
        i += 1;
    }
    let r = Fp8 { c: out };
    proof {
        assert forall|k: int| 0 <= k < 8 implies v8(r)[k] == negv(v8(*a))[k] by {
            assert(r.c[k] == fp8_neg_coeff(*a, k));
        }
        assert(v8(r) =~= negv(v8(*a)));
    }
    r
}

/// Partial convolution sum: terms `a.c[j] * b.c[k - j]` for `j < n`, with
/// out-of-range indices contributing zero.
pub open spec fn conv_at(a: Fp8, b: Fp8, k: int, n: int) -> int
    decreases n,
{
    if n <= 0 {
        0
    } else {
        conv_at(a, b, k, n - 1) + if 0 <= k - (n - 1) < 8 {
            a.c[n - 1] * b.c[k - (n - 1)]
        } else {
            0
        }
    }
}

/// The full convolution coefficient `sum_{i + j = k} a_i * b_j`.
pub open spec fn conv(a: Fp8, b: Fp8, k: int) -> int {
    conv_at(a, b, k, 8)
}

/// Coefficient `k` of the product: schoolbook convolution with the fold
/// `u^8 = 3` applied to the upper terms.
pub open spec fn fp8_mul_coeff(a: Fp8, b: Fp8, k: int) -> int {
    (conv(a, b, k) + (FP8_W as int) * conv(a, b, k + 8)) % (FP as int)
}

/// Extension-field multiplication: 15-term schoolbook convolution, then the
/// upper coefficients folded back with `u^8 = 3`.
pub fn fp8_mul(a: &Fp8, b: &Fp8) -> (r: Fp8)
    requires
        fp8_wf(*a),
        fp8_wf(*b),
    ensures
        fp8_wf(r),
        forall|k: int| 0 <= k < 8 ==> r.c[k] == fp8_mul_coeff(*a, *b, k),
        v8(r) == mulv(v8(*a), v8(*b)),
{
    let mut out: [u32; 8] = [0, 0, 0, 0, 0, 0, 0, 0];
    let mut k: usize = 0;
    while k < 8
        invariant
            k <= 8,
            fp8_wf(*a),
            fp8_wf(*b),
            forall|t: int| 0 <= t < k ==> out[t] == fp8_mul_coeff(*a, *b, t),
            forall|t: int| 0 <= t < k ==> out[t] < FP,
        decreases 8 - k,
    {
        let mut lo: u128 = 0;
        let mut hi: u128 = 0;
        let mut j: usize = 0;
        while j < 8
            invariant
                j <= 8,
                k < 8,
                fp8_wf(*a),
                fp8_wf(*b),
                lo == conv_at(*a, *b, k as int, j as int),
                hi == conv_at(*a, *b, k as int + 8, j as int),
                lo <= (j as int) * 0x4000000000000000,
                hi <= (j as int) * 0x4000000000000000,
            decreases 8 - j,
        {
            if j <= k {
                proof {
                    vstd::arithmetic::mul::lemma_mul_upper_bound(
                        a.c[j as int] as int,
                        FP as int - 1,
                        b.c[k - j] as int,
                        FP as int - 1,
                    );
                }
                lo = lo + (a.c[j] as u128) * (b.c[k - j] as u128);
            } else {
                proof {
                    vstd::arithmetic::mul::lemma_mul_upper_bound(
                        a.c[j as int] as int,
                        FP as int - 1,
                        b.c[k + 8 - j] as int,
                        FP as int - 1,
                    );
                }
                hi = hi + (a.c[j] as u128) * (b.c[k + 8 - j] as u128);
            }
            j += 1;
        }
        proof {
            assert(FP8_W == 3) by (nonlinear_arith);
        }
        let t: u128 = lo + 3 * hi;
        assert(t == conv_at(*a, *b, k as int, 8) + (FP8_W as int) * conv_at(*a, *b, k as int + 8, 8));
        let red: u128 = t % (FP as u128);
        out[k] = red as u32;
        k += 1;
    }
    let r = Fp8 { c: out };
    proof {
        assert forall|t: int| 0 <= t < 8 implies v8(r)[t] == mulv(v8(*a), v8(*b))[t] by {
            lemma_conv_agrees(*a, *b, t, 8);
            lemma_conv_agrees(*a, *b, t + 8, 8);
        }
        assert(v8(r) =~= mulv(v8(*a), v8(*b)));
    }
    r
}

/// Multiply every coefficient by a prime-field scalar.
pub open spec fn fp8_mul_scalar_coeff(a: Fp8, s: u32, k: int) -> int {
    (a.c[k] * s) % (FP as int)
}

/// Coefficient-wise multiplication by a prime-field scalar.
pub fn fp8_mul_scalar(a: &Fp8, s: u32) -> (r: Fp8)
    requires
        fp8_wf(*a),
        s < FP,
    ensures
        fp8_wf(r),
        forall|k: int| 0 <= k < 8 ==> r.c[k] == fp8_mul_scalar_coeff(*a, s, k),
        v8(r) == mulsv(v8(*a), s as int),
{
    let mut out: [u32; 8] = [0, 0, 0, 0, 0, 0, 0, 0];
    let mut i: usize = 0;
    while i < 8
        invariant
            i <= 8,
            fp8_wf(*a),
            s < FP,
            forall|k: int| 0 <= k < i ==> out[k] == fp8_mul_scalar_coeff(*a, s, k),
            forall|k: int| 0 <= k < i ==> out[k] < FP,
        decreases 8 - i,
    {
        out[i] = fp_mul(a.c[i], s);
        i += 1;
    }
    let r = Fp8 { c: out };
    proof {
        assert forall|k: int| 0 <= k < 8 implies v8(r)[k] == mulsv(v8(*a), s as int)[k] by {
            assert(r.c[k] == fp8_mul_scalar_coeff(*a, s, k));
        }
        assert(v8(r) =~= mulsv(v8(*a), s as int));
    }
    r
}


/// The coefficients of an element as a mathematical sequence.
pub open spec fn v8(a: Fp8) -> Seq<int> {
    Seq::new(8, |i: int| a.c[i] as int)
}

/// The zero element, as a sequence.
pub open spec fn fp8_zero_v() -> Seq<int> {
    Seq::new(8, |i: int| 0int)
}

/// The one element, as a sequence.
pub open spec fn fp8_one_v() -> Seq<int> {
    Seq::new(8, |i: int| if i == 0 { 1int } else { 0int })
}

/// Partial convolution over coefficient sequences.
pub open spec fn conv_v_at(x: Seq<int>, y: Seq<int>, k: int, n: int) -> int
    decreases n,
{
    if n <= 0 {
        0
    } else {
        conv_v_at(x, y, k, n - 1) + if 0 <= k - (n - 1) < 8 {
            x[n - 1] * y[k - (n - 1)]
        } else {
            0
        }
    }
}

/// Coefficient `k` of the product of two coefficient sequences.
pub open spec fn mulv_coeff(x: Seq<int>, y: Seq<int>, k: int) -> int {
    (conv_v_at(x, y, k, 8) + (FP8_W as int) * conv_v_at(x, y, k + 8, 8)) % (FP as int)
}

/// The product of two coefficient sequences.
pub open spec fn mulv(x: Seq<int>, y: Seq<int>) -> Seq<int> {
    Seq::new(8, |k: int| mulv_coeff(x, y, k))
}

/// The sum of two coefficient sequences.
pub open spec fn addv(x: Seq<int>, y: Seq<int>) -> Seq<int> {
    Seq::new(8, |k: int| (x[k] + y[k]) % (FP as int))
}

/// The difference of two coefficient sequences.
pub open spec fn subv(x: Seq<int>, y: Seq<int>) -> Seq<int> {
    Seq::new(8, |k: int| (x[k] - y[k]) % (FP as int))
}

/// The negation of a coefficient sequence.
pub open spec fn negv(x: Seq<int>) -> Seq<int> {
    Seq::new(8, |k: int| ((FP as int) - x[k]) % (FP as int))
}

/// A coefficient sequence times a prime-field scalar.
pub open spec fn mulsv(x: Seq<int>, s: int) -> Seq<int> {
    Seq::new(8, |k: int| (x[k] * s) % (FP as int))
}

proof fn lemma_conv_agrees(a: Fp8, b: Fp8, k: int, n: int)
    requires
        0 <= n <= 8,
    ensures
        conv_at(a, b, k, n) == conv_v_at(v8(a), v8(b), k, n),
    decreases n,
{
    if n > 0 {
        lemma_conv_agrees(a, b, k, n - 1);
        if 0 <= n - 1 < 8 && 0 <= k - (n - 1) < 8 {
            assert(v8(a)[n - 1] == a.c[n - 1]);
            assert(v8(b)[k - (n - 1)] == b.c[k - (n - 1)]);
        }
    }
}

/// Bit `i` of a little-endian four-limb value.
pub open spec fn limb_bit(l: [u64; 4], i: int) -> bool {
    (l[i / 64] >> ((i % 64) as u64)) & 1 == 1
}

/// The 256 bits of a little-endian four-limb value, least significant first.
pub open spec fn bits_of_limbs(l: [u64; 4]) -> Seq<bool> {
    Seq::new(256, |i: int| limb_bit(l, i))
}

/// Square-and-multiply state machine: each step multiplies the accumulator
/// by the running base when the next bit is set, and squares the base.
pub open spec fn fp8_pow_loop_v(acc: Seq<int>, base: Seq<int>, bits: Seq<bool>) -> Seq<int>
    decreases bits.len(),
{
    if bits.len() == 0 {
        acc
    } else {
        fp8_pow_loop_v(
            if bits[0] {
                mulv(acc, base)
            } else {
                acc
            },
            mulv(base, base),
            bits.skip(1),
        )
    }
}

/// Exponentiation of a coefficient sequence by a bit sequence, least
/// significant bit first.
pub open spec fn fp8_pow_v(x: Seq<int>, bits: Seq<bool>) -> Seq<int> {
    fp8_pow_loop_v(fp8_one_v(), x, bits)
}

/// Limb `j` of `p^8 - 2`, the Fermat inversion exponent of the extension.
pub open spec fn fp8_inv_exp_limb(j: int) -> u64 {
    if j == 0 {
        0xe41c0003f7ffffff
    } else if j == 1 {
        0x0568744cd653c806
    } else if j == 2 {
        0x40f5f26a5ae17490
    } else {
        0x00f06e44682c2aa4
    }
}

/// The bits of `p^8 - 2`, least significant first.
pub open spec fn fp8_inv_exp_bits() -> Seq<bool> {
    Seq::new(256, |i: int| (fp8_inv_exp_limb(i / 64) >> ((i % 64) as u64)) & 1 == 1)
}

/// The Fermat inverse `x^(p^8 - 2)` of a coefficient sequence.
pub open spec fn fp8_inverse_v(x: Seq<int>) -> Seq<int> {
    fp8_pow_v(x, fp8_inv_exp_bits())
}

/// Square-and-multiply exponentiation, bits taken from four little-endian
/// limbs, least significant bit first.
pub fn fp8_pow(a: &Fp8, e: &[u64; 4]) -> (r: Fp8)
    requires
        fp8_wf(*a),
    ensures
        fp8_wf(r),
        v8(r) == fp8_pow_v(v8(*a), bits_of_limbs(*e)),
{
    let ghost allbits = bits_of_limbs(*e);
    let mut result = Fp8::one();
    let mut base = *a;
    proof {
        assert(v8(result) =~= fp8_one_v());
        assert(allbits.skip(0) =~= allbits);
    }
    let mut li: usize = 0;
    while li < 4
        invariant
            li <= 4,
            fp8_wf(result),
            fp8_wf(base),
            allbits == bits_of_limbs(*e),
            fp8_pow_loop_v(v8(result), v8(base), allbits.skip(64 * li)) == fp8_pow_v(
                v8(*a),
                allbits,
            ),
        decreases 4 - li,
    {
        let mut limb: u64 = e[li];
        let mut b: usize = 0;
        proof {
            let cur: u64 = e[li as int];
            assert(cur >> 0u64 == cur) by (bit_vector);
        }
        while b < 64
            invariant
                li < 4,
                b <= 64,
                fp8_wf(result),
                fp8_wf(base),
                allbits == bits_of_limbs(*e),
                b < 64 ==> limb == e[li as int] >> (b as u64),
                fp8_pow_loop_v(v8(result), v8(base), allbits.skip(64 * li + b)) == fp8_pow_v(
                    v8(*a),
                    allbits,
                ),
            decreases 64 - b,
        {
            let ghost i: int = 64 * (li as int) + (b as int);
            proof {
                assert(0 <= i < 256);
                assert(i / 64 == li && i % 64 == b) by {
                    vstd::arithmetic::div_mod::lemma_fundamental_div_mod_converse(
                        i,
                        64,
                        li as int,
                        b as int,
                    );
                }
                assert(allbits[i] == ((limb & 1) == 1));
                assert(allbits.skip(i).len() == 256 - i);
                assert(allbits.skip(i)[0] == allbits[i]);
                assert(allbits.skip(i).skip(1) =~= allbits.skip(i + 1));
            }
            let bit_set = limb & 1 == 1;
            let ghost old_result = result;
            let ghost old_base = base;
            if bit_set {
                result = fp8_mul(&result, &base);
                proof {
                    assert(v8(result) =~= mulv(v8(old_result), v8(old_base)));
                }
            }
            base = fp8_mul(&base, &base);
            proof {
                assert(v8(base) =~= mulv(v8(old_base), v8(old_base)));
                assert(fp8_pow_loop_v(v8(result), v8(base), allbits.skip(i + 1)) == fp8_pow_v(
                    v8(*a),
                    allbits,
                ));
                if b + 1 < 64 {
                    let cur: u64 = e[li as int];
                    let b64: u64 = b as u64;
                    assert((cur >> b64) >> 1u64 == cur >> ((b64 + 1) as u64)) by (bit_vector)
                        requires
                            b64 < 63,
                    ;
                }
            }
            limb = limb >> 1u64;
            b += 1;
        }
        li += 1;
        proof {
            assert(64 * (li - 1) + 64 == 64 * li);
        }
    }
    proof {
        assert(allbits.skip(256) =~= Seq::<bool>::empty());
        assert(allbits.skip(256int).len() == 0);
    }
    result
}

/// Fermat inverse: raises to `p^8 - 2`. The inverse of zero is zero.
pub fn fp8_inverse(a: &Fp8) -> (r: Fp8)
    requires
        fp8_wf(*a),
    ensures
        fp8_wf(r),
        v8(r) == fp8_inverse_v(v8(*a)),
{
    let e: [u64; 4] = [
        0xe41c0003f7ffffff,
        0x0568744cd653c806,
        0x40f5f26a5ae17490,
        0x00f06e44682c2aa4,
    ];
    let r = fp8_pow(a, &e);
    proof {
        assert forall|i: int| 0 <= i < 256 implies bits_of_limbs(e)[i] == fp8_inv_exp_bits()[i] by {
            assert(e[i / 64] == fp8_inv_exp_limb(i / 64));
        }
        assert(bits_of_limbs(e) =~= fp8_inv_exp_bits());
    }
    r
}



/// Equality of the coefficient views.
pub fn fp8_eq_v(a: &Fp8, b: &Fp8) -> (r: bool)
    ensures
        r <==> v8(*a) == v8(*b),
{
    let r = a.equals(b);
    proof {
        lemma_v8_eq(*a, *b);
    }
    r
}

/// Coefficient views are equal exactly when the coefficient arrays are.
pub proof fn lemma_v8_eq(a: Fp8, b: Fp8)
    ensures
        (v8(a) == v8(b)) <==> (a.c == b.c),
{
    if v8(a) == v8(b) {
        assert forall|i: int| 0 <= i < 8 implies a.c[i] == b.c[i] by {
            assert(v8(a)[i] == v8(b)[i]);
        }
        assert(a.c =~= b.c);
    }
}

/// An element is zero exactly when its view is the zero sequence.
pub proof fn lemma_v8_zero(a: Fp8)
    ensures
        fp8_is_zero(a) <==> (v8(a) == fp8_zero_v()),
{
    if fp8_is_zero(a) {
        assert(v8(a) =~= fp8_zero_v());
    } else {
        let i = choose|i: int| 0 <= i < 8 && a.c[i] != 0;
        assert(v8(a)[i] != fp8_zero_v()[i]);
    }
}


proof fn lemma_conv_one(x: Seq<int>, k: int, n: int)
    requires
        0 <= n <= 8,
    ensures
        conv_v_at(x, fp8_one_v(), k, n) == if 0 <= k < n {
            x[k]
        } else {
            0int
        },
    decreases n,
{
    if n > 0 {
        lemma_conv_one(x, k, n - 1);
        if 0 <= k - (n - 1) < 8 {
            assert(fp8_one_v()[k - (n - 1)] == if k == n - 1 {
                1int
            } else {
                0int
            });
            if k == n - 1 {
                assert(x[n - 1] * 1 == x[n - 1]) by (nonlinear_arith);
            } else {
                assert(x[n - 1] * fp8_one_v()[k - (n - 1)] == 0) by (nonlinear_arith)
                    requires
                        fp8_one_v()[k - (n - 1)] == 0,
                ;
            }
        }
    }
}

/// Multiplying by one changes nothing.
pub proof fn lemma_mulv_one(x: Seq<int>)
    requires
        x.len() == 8,
        forall|i: int| 0 <= i < 8 ==> 0 <= #[trigger] x[i] < FP,
    ensures
        mulv(x, fp8_one_v()) == x,
{
    assert forall|k: int| 0 <= k < 8 implies mulv(x, fp8_one_v())[k] == x[k] by {
        lemma_conv_one(x, k, 8);
        lemma_conv_one(x, k + 8, 8);
        assert((FP8_W as int) * 0 == 0) by (nonlinear_arith);
        vstd::arithmetic::div_mod::lemma_small_mod(x[k] as nat, FP as nat);
    }
    assert(mulv(x, fp8_one_v()) =~= x);
}

proof fn lemma_pow_loop_one(bits: Seq<bool>)
    ensures
        fp8_pow_loop_v(fp8_one_v(), fp8_one_v(), bits) == fp8_one_v(),
    decreases bits.len(),
{
    if bits.len() > 0 {
        assert(forall|i: int| 0 <= i < 8 ==> 0 <= #[trigger] fp8_one_v()[i] < FP);
        lemma_mulv_one(fp8_one_v());
        lemma_pow_loop_one(bits.skip(1));
    }
}

/// The inverse of one is one.
pub proof fn lemma_inverse_one()
    ensures
        fp8_inverse_v(fp8_one_v()) == fp8_one_v(),
{
    lemma_pow_loop_one(fp8_inv_exp_bits());
}


/// Multiplying residues of the coordinate field is associative.
pub proof fn lemma_fp_mul_associative(x: int, y: int, z: int)
    ensures
        (((x * y) % (FP as int)) * z) % (FP as int) == (x * ((y * z) % (FP as int))) % (FP as int),
{
    let p = FP as int;
    vstd::arithmetic::div_mod::lemma_mul_mod_noop_left(x * y, z, p);
    assert((x * y) * z == x * (y * z)) by (nonlinear_arith);
    vstd::arithmetic::div_mod::lemma_mul_mod_noop_right(x, y * z, p);
}

/// Multiplying residues of the coordinate field distributes over addition.
pub proof fn lemma_fp_mul_distributive(x: int, y: int, z: int)
    ensures
        (((x + y) % (FP as int)) * z) % (FP as int) == ((x * z) % (FP as int) + (y * z) % (
        FP as int)) % (FP as int),
{
    let p = FP as int;
    vstd::arithmetic::div_mod::lemma_mul_mod_noop_left(x + y, z, p);
    assert((x + y) * z == x * z + y * z) by (nonlinear_arith);
    vstd::arithmetic::div_mod::lemma_add_mod_noop(x * z, y * z, p);
}

/// A coordinate-field residue plus its negation is zero.
pub proof fn lemma_fp_add_neg(x: int)
    requires
        0 <= x < FP,
    ensures
        (x + ((FP as int) - x) % (FP as int)) % (FP as int) == 0,
{
    let p = FP as int;
    if x == 0 {
        vstd::arithmetic::div_mod::lemma_mod_self_0(p);
        lemma_small_mod(0nat, FP as nat);
    } else {
        lemma_small_mod((FP - x) as nat, FP as nat);
        vstd::arithmetic::div_mod::lemma_mod_self_0(p);
    }
}

/// An extension-field element plus its negation is zero, coefficient-wise.
pub proof fn lemma_fp8_add_neg(x: Seq<int>)
    requires
        x.len() == 8,
        forall|i: int| 0 <= i < 8 ==> 0 <= #[trigger] x[i] < FP,
    ensures
        addv(x, negv(x)) == fp8_zero_v(),
{
    assert forall|k: int| 0 <= k < 8 implies addv(x, negv(x))[k] == 0int by {
        lemma_fp_add_neg(x[k]);
    }
    assert(addv(x, negv(x)) =~= fp8_zero_v());
}


/// Adding a sequence to itself twice over equals scaling it by three.
pub proof fn lemma_addv3_is_mulsv3(c: Seq<int>)
    ensures
        addv(addv(c, c), c) == mulsv(c, 3),
{
    assert forall|k: int| 0 <= k < 8 implies addv(addv(c, c), c)[k] == mulsv(c, 3)[k] by {
        let p = FP as int;
        vstd::arithmetic::div_mod::lemma_add_mod_noop_right(c[k], c[k] + c[k], p);
        assert((c[k] + (c[k] + c[k]) % p) % p == (c[k] + (c[k] + c[k])) % p);
    }
    assert(addv(addv(c, c), c) =~= mulsv(c, 3));
}

/// Adding a sequence to itself equals scaling it by two.
pub proof fn lemma_addv2_is_mulsv2(c: Seq<int>)
    ensures
        addv(c, c) == mulsv(c, 2),
{
    assert forall|k: int| 0 <= k < 8 implies addv(c, c)[k] == mulsv(c, 2)[k] by {
        assert(c[k] + c[k] == c[k] * 2) by (nonlinear_arith);
    }
    assert(addv(c, c) =~= mulsv(c, 2));
}

/// Subtracting a canonical sequence twice equals subtracting its double.
pub proof fn lemma_subv_twice(t: Seq<int>, c: Seq<int>)
    requires
        forall|i: int| 0 <= i < 8 ==> 0 <= #[trigger] c[i] < FP,
    ensures
        subv(subv(t, c), c) == subv(t, mulsv(c, 2)),
{
    assert forall|k: int| 0 <= k < 8 implies subv(subv(t, c), c)[k] == subv(t, mulsv(c, 2))[k] by {
        let p = FP as int;
        vstd::arithmetic::div_mod::lemma_small_mod(c[k] as nat, FP as nat);
        vstd::arithmetic::div_mod::lemma_sub_mod_noop(t[k] - c[k], c[k], p);
        assert(((t[k] - c[k]) % p - c[k]) % p == (t[k] - c[k] - c[k]) % p);
        vstd::arithmetic::div_mod::lemma_sub_mod_noop_right(t[k], c[k] * 2, p);
        assert(c[k] + c[k] == c[k] * 2) by (nonlinear_arith);
    }
    assert(subv(subv(t, c), c) =~= subv(t, mulsv(c, 2)));
}

proof fn lemma_conv_zero(z: Seq<int>, w: Seq<int>, k: int, n: int)
    requires
        0 <= n <= 8,
        forall|i: int| 0 <= i < 8 ==> #[trigger] z[i] == 0,
    ensures
        conv_v_at(z, w, k, n) == 0,
    decreases n,
{
    if n > 0 {
        lemma_conv_zero(z, w, k, n - 1);
        if 0 <= k - (n - 1) < 8 {
            assert(z[n - 1] * w[k - (n - 1)] == 0) by (nonlinear_arith)
                requires
                    z[n - 1] == 0,
            ;
        }
    }
}

/// A product with an all-zero sequence is never one, so an all-zero
/// denominator has no inverse.
pub proof fn lemma_mulv_zero_not_one(z: Seq<int>, w: Seq<int>)
    requires
        forall|i: int| 0 <= i < 8 ==> #[trigger] z[i] == 0,
    ensures
        mulv(z, w) != fp8_one_v(),
{
    lemma_conv_zero(z, w, 0, 8);
    lemma_conv_zero(z, w, 8, 8);
    vstd::arithmetic::div_mod::lemma_small_mod(0nat, FP as nat);
    assert(mulv(z, w)[0] == 0);
    assert(fp8_one_v()[0] == 1);
}

} // verus!
