//! The 248-bit prime scalar field of the curve, held in Montgomery form.
//!
//! An element is four little-endian 64-bit limbs storing `a * R mod q` with
//! `R = 2^256`. Stored limbs are always canonical (less than `q`).

use vstd::prelude::*;

verus! {

use vstd::arithmetic::div_mod::{
    lemma_fundamental_div_mod_converse_mod, lemma_small_mod,
};

/// The scalar field modulus `q`.
pub open spec fn modulus() -> int {
    0xf06e44682c2aa440f5f26a5ae1748ff85ccc2efc3068faf2154ff8a2e94d81int
}

/// `2^256`, the Montgomery radix `R`.
pub open spec fn mont_radix() -> int {
    0x10000000000000000000000000000000000000000000000000000000000000000int
}

/// `R mod q`, the stored form of one.
pub open spec fn mont_r() -> int {
    0x8ad7515112b17afaae6eff707427081d670e140c90755ec95b07d2e81da6f0int
}

/// `R^2 mod q`, used to enter Montgomery form.
pub open spec fn mont_r2() -> int {
    0x4497b874228e490943bc9a31f37148efbc3b2088f7b0f723eabb3eaf3c12e3int
}

/// `R^{-1} mod q`, used to state what Montgomery products mean.
pub open spec fn mont_rinv() -> int {
    0xb32c7e5892fe0f535609cbc825b86d9253b03dea87f21e43c47e18bf461e4eint
}

/// The integer held by four little-endian 64-bit limbs.
pub open spec fn val4(l: [u64; 4]) -> int {
    l[0] + l[1] * 0x10000000000000000int + l[2] * 0x100000000000000000000000000000000int + l[3]
        * 0x1000000000000000000000000000000000000000000000000int
}

/// `R` and `R^{-1}` cancel modulo `q`.
pub proof fn lemma_mont_facts()
    ensures
        (mont_rinv() * mont_radix()) % modulus() == 1,
        mont_radix() % modulus() == mont_r(),
        (mont_r2() * mont_rinv()) % modulus() == mont_r(),
        mont_r() < modulus(),
        mont_r2() < modulus(),
        mont_rinv() < modulus(),
{
    lemma_fundamental_div_mod_converse_mod(
        mont_rinv() * mont_radix(),
        modulus(),
        0xbec6bdd5f43f2b7668d6c1038dfaafa651b09837e9cf9dea921d21f874d30d7fint,
        1,
    );
    lemma_fundamental_div_mod_converse_mod(mont_radix(), modulus(), 0x110, mont_r());
    lemma_fundamental_div_mod_converse_mod(
        mont_r2() * mont_rinv(),
        modulus(),
        0x331ddb1c3254132f7544cd7945c554eada2f02a9ab0e75f227008f5c29a53aint,
        mont_r(),
    );
}

/// Addition with carry in and carry out: the pair represents the exact sum.
pub fn carrying_add(a: u64, b: u64, carry: bool) -> (r: (u64, bool))
    ensures
        r.0 + (if r.1 {
            0x10000000000000000int
        } else {
            0int
        }) == a + b + (if carry {
            1int
        } else {
            0int
        }),
{
    let s: u128 = a as u128 + b as u128 + (if carry {
        1u128
    } else {
        0u128
    });
    if s >= 0x10000000000000000 {
        let lo: u64 = (s - 0x10000000000000000) as u64;
        (lo, true)
    } else {
        (s as u64, false)
    }
}

/// Subtraction with borrow in and borrow out: the pair represents the exact
/// difference.
pub fn borrowing_sub(a: u64, b: u64, borrow: bool) -> (r: (u64, bool))
    ensures
        r.0 - (if r.1 {
            0x10000000000000000int
        } else {
            0int
        }) == a - b - (if borrow {
            1int
        } else {
            0int
        }),
{
    let d: i128 = a as i128 - b as i128 - (if borrow {
        1i128
    } else {
        0i128
    });
    if d < 0 {
        ((d + 0x10000000000000000) as u64, true)
    } else {
        (d as u64, false)
    }
}

/// The limbs of the modulus.
pub fn modulus_limbs() -> (r: [u64; 4])
    ensures
        val4(r) == modulus(),
{
    [0xf2154ff8a2e94d81, 0xf85ccc2efc3068fa, 0x40f5f26a5ae1748f, 0x00f06e44682c2aa4]
}

/// Add two canonical 256-bit values modulo `q`.
pub fn add_mod(a: [u64; 4], b: [u64; 4]) -> (r: [u64; 4])
    requires
        val4(a) < modulus(),
        val4(b) < modulus(),
    ensures
        val4(r) < modulus(),
        val4(r) == (val4(a) + val4(b)) % modulus(),
{
    let (r0, c1): (u64, bool) = carrying_add(a[0], b[0], false);
    let (r1, c2): (u64, bool) = carrying_add(a[1], b[1], c1);
    let (r2, c3): (u64, bool) = carrying_add(a[2], b[2], c2);
    let (r3, carry): (u64, bool) = carrying_add(a[3], b[3], c3);
    let rr: [u64; 4] = [r0, r1, r2, r3];
    proof {
        assert(val4(rr) + (if carry {
            mont_radix()
        } else {
            0int
        }) == val4(a) + val4(b));
        assert(!carry);
    }
    let m: [u64; 4] = modulus_limbs();
    let (s0, b1): (u64, bool) = borrowing_sub(r0, m[0], false);
    let (s1, b2): (u64, bool) = borrowing_sub(r1, m[1], b1);
    let (s2, b3): (u64, bool) = borrowing_sub(r2, m[2], b2);
    let (s3, borrow): (u64, bool) = borrowing_sub(r3, m[3], b3);
    let ss: [u64; 4] = [s0, s1, s2, s3];
    proof {
        assert(val4(ss) - (if borrow {
            mont_radix()
        } else {
            0int
        }) == val4(rr) - modulus());
    }
    if carry || !borrow {
        proof {
            lemma_fundamental_div_mod_converse_mod(
                val4(a) + val4(b),
                modulus(),
                1,
                val4(a) + val4(b) - modulus(),
            );
        }
        ss
    } else {
        proof {
            lemma_small_mod((val4(a) + val4(b)) as nat, modulus() as nat);
        }
        rr
    }
}

/// Subtract two canonical 256-bit values modulo `q`.
pub fn sub_mod(a: [u64; 4], b: [u64; 4]) -> (r: [u64; 4])
    requires
        val4(a) < modulus(),
        val4(b) < modulus(),
    ensures
        val4(r) < modulus(),
        val4(r) == (val4(a) - val4(b)) % modulus(),
{
    let (d0, b1): (u64, bool) = borrowing_sub(a[0], b[0], false);
    let (d1, b2): (u64, bool) = borrowing_sub(a[1], b[1], b1);
    let (d2, b3): (u64, bool) = borrowing_sub(a[2], b[2], b2);
    let (d3, borrow): (u64, bool) = borrowing_sub(a[3], b[3], b3);
    let dd: [u64; 4] = [d0, d1, d2, d3];
    proof {
        assert(val4(dd) - (if borrow {
            mont_radix()
        } else {
            0int
        }) == val4(a) - val4(b));
    }
    if borrow {
        let m: [u64; 4] = modulus_limbs();
        let (e0, c1): (u64, bool) = carrying_add(d0, m[0], false);
        let (e1, c2): (u64, bool) = carrying_add(d1, m[1], c1);
        let (e2, c3): (u64, bool) = carrying_add(d2, m[2], c2);
        let (e3, carry): (u64, bool) = carrying_add(d3, m[3], c3);
        let ee: [u64; 4] = [e0, e1, e2, e3];
        proof {
            assert(val4(ee) + (if carry {
                mont_radix()
            } else {
                0int
            }) == val4(dd) + modulus());
            assert(carry);
            lemma_fundamental_div_mod_converse_mod(
                val4(a) - val4(b),
                modulus(),
                -1,
                val4(a) - val4(b) + modulus(),
            );
        }
        ee
    } else {
        proof {
            lemma_small_mod((val4(a) - val4(b)) as nat, modulus() as nat);
        }
        dd
    }
}

/// Negate a canonical 256-bit value modulo `q`.
pub fn neg_mod(a: [u64; 4]) -> (r: [u64; 4])
    requires
        val4(a) < modulus(),
    ensures
        val4(r) < modulus(),
        val4(r) == (modulus() - val4(a)) % modulus(),
{
    if a[0] == 0 && a[1] == 0 && a[2] == 0 && a[3] == 0 {
        proof {
            vstd::arithmetic::div_mod::lemma_mod_self_0(modulus());
        }
        [0, 0, 0, 0]
    } else {
        let m: [u64; 4] = modulus_limbs();
        let (d0, b1): (u64, bool) = borrowing_sub(m[0], a[0], false);
        let (d1, b2): (u64, bool) = borrowing_sub(m[1], a[1], b1);
        let (d2, b3): (u64, bool) = borrowing_sub(m[2], a[2], b2);
        let (d3, borrow): (u64, bool) = borrowing_sub(m[3], a[3], b3);
        let dd: [u64; 4] = [d0, d1, d2, d3];
        proof {
            assert(val4(dd) - (if borrow {
                mont_radix()
            } else {
                0int
            }) == modulus() - val4(a));
            assert(!borrow);
            assert(val4(a) > 0);
            lemma_small_mod((modulus() - val4(a)) as nat, modulus() as nat);
        }
        dd
    }
}

/// Whether four limbs hold a canonical value, that is one below `q`.
pub fn is_canonical(limbs: [u64; 4]) -> (r: bool)
    ensures
        r <==> val4(limbs) < modulus(),
{
    let m: [u64; 4] = modulus_limbs();
    let (s0, b1): (u64, bool) = borrowing_sub(limbs[0], m[0], false);
    let (s1, b2): (u64, bool) = borrowing_sub(limbs[1], m[1], b1);
    let (s2, b3): (u64, bool) = borrowing_sub(limbs[2], m[2], b2);
    let (s3, borrow): (u64, bool) = borrowing_sub(limbs[3], m[3], b3);
    let ss: [u64; 4] = [s0, s1, s2, s3];
    proof {
        assert(val4(ss) - (if borrow {
            mont_radix()
        } else {
            0int
        }) == val4(limbs) - modulus());
    }
    borrow
}


use vstd::arithmetic::power2::{pow2, lemma_pow2_adds, lemma2_to64, lemma2_to64_rest};
use vstd::arithmetic::div_mod::{
    lemma_fundamental_div_mod, lemma_fundamental_div_mod_converse_div, lemma_div_denominator,
    lemma_mod_multiples_vanish, lemma_add_mod_noop, lemma_mul_mod_noop_left,
    lemma_mul_mod_noop_right, lemma_basic_div, lemma_sub_mod_noop,
};
use vstd::bits::{lemma_u64_shr_is_div, lemma_u64_low_bits_mask_is_mod, lemma_low_bits_mask_values};
use vstd::arithmetic::mul::{
    lemma_mul_is_distributive_add, lemma_mul_is_associative, lemma_mul_is_commutative,
};
use crate::basefield::{bits_of_limbs, limb_bit};

pub proof fn lemma_pow2_val()
    ensures
        pow2(64) == 0x10000000000000000,
        pow2(128) == 0x100000000000000000000000000000000int,
        pow2(192) == 0x1000000000000000000000000000000000000000000000000int,
        pow2(256) == mont_radix(),
{
    lemma2_to64();
    lemma2_to64_rest();
    lemma_pow2_adds(64, 64);
    lemma_pow2_adds(128, 64);
    lemma_pow2_adds(192, 64);
    lemma_pow2_adds(192, 64);
    lemma_pow2_adds(128, 128);
}

/// The limbs of a four-limb value above limb `j`, as one integer.
pub open spec fn high4(l: [u64; 4], j: int) -> int {
    if j == 0 {
        l[1] + l[2] * 0x10000000000000000int + l[3] * 0x100000000000000000000000000000000int
    } else if j == 1 {
        l[2] + l[3] * 0x10000000000000000int
    } else if j == 2 {
        l[3] as int
    } else {
        0int
    }
}

/// Shifting the four-limb value right by `k` bits splits into the shifted
/// limb holding bit `k` and the limbs above it.
pub proof fn lemma_val4_div(l: [u64; 4], k: int)
    requires
        0 <= k < 256,
    ensures
        val4(l) / (pow2(k as nat) as int) == (l[k / 64] as int) / (pow2((k % 64) as nat) as int)
            + (pow2((64 - k % 64) as nat) as int) * high4(l, k / 64),
        (l[k / 64] >> ((k % 64) as u64)) as int == (l[k / 64] as int) / (pow2(
            (k % 64) as nat,
        ) as int),
{
    let j = k / 64;
    let m = k % 64;
    lemma_pow2_val();
    lemma2_to64();
    let lj: int = l[j] as int;
    let hj: int = high4(l, j);
    let low: int = if j == 0 {
        0int
    } else if j == 1 {
        l[0] as int
    } else if j == 2 {
        l[0] + l[1] * 0x10000000000000000int
    } else {
        l[0] + l[1] * 0x10000000000000000int + l[2] * 0x100000000000000000000000000000000int
    };
    assert(0 <= j < 4 && 0 <= m < 64);
    lemma_pow2_adds((64 * j) as nat, m as nat);
    vstd::arithmetic::power2::lemma_pow2_pos((64 * j) as nat);
    vstd::arithmetic::power2::lemma_pow2_pos(m as nat);
    let pj: int = pow2((64 * j) as nat) as int;
    // val4(l) == (lj + 2^64 * hj) * 2^(64 j) + low, spelled out per limb index
    if j == 0 {
        assert(pj == 1);
        assert(val4(l) == (lj + 0x10000000000000000int * hj) * 1 + low);
    } else if j == 1 {
        assert(pj == 0x10000000000000000int);
        assert(val4(l) == (lj + 0x10000000000000000int * hj) * 0x10000000000000000int + low);
    } else if j == 2 {
        assert(pj == 0x100000000000000000000000000000000int);
        assert(val4(l) == (lj + 0x10000000000000000int * hj)
            * 0x100000000000000000000000000000000int + low);
    } else {
        assert(pj == 0x1000000000000000000000000000000000000000000000000int);
        assert(val4(l) == (lj + 0x10000000000000000int * hj)
            * 0x1000000000000000000000000000000000000000000000000int + low);
    }
    let x1: int = lj + 0x10000000000000000int * hj;
    assert(val4(l) == x1 * pj + low);
    assert(0 <= low < pj);
    lemma_fundamental_div_mod_converse_div(val4(l), pj, x1, low);
    // val4(l) / pow2(k) == x1 / pow2(m)
    lemma_div_denominator(val4(l), pj, pow2(m as nat) as int);
    assert(val4(l) / (pow2(k as nat) as int) == x1 / (pow2(m as nat) as int));
    // x1 / pow2(m) == lj / pow2(m) + pow2(64 - m) * hj
    let pm: int = pow2(m as nat) as int;
    let pc: int = pow2((64 - m) as nat) as int;
    lemma_pow2_adds(m as nat, (64 - m) as nat);
    assert(pm * pc == 0x10000000000000000int);
    lemma_fundamental_div_mod(lj, pm);
    assert(pm * (pc * hj) == (pm * pc) * hj) by {
        lemma_mul_is_associative(pm, pc, hj);
    }
    assert((pm * pc) * hj == 0x10000000000000000int * hj);
    assert(pm * (lj / pm + pc * hj) == pm * (lj / pm) + pm * (pc * hj)) by {
        lemma_mul_is_distributive_add(pm, lj / pm, pc * hj);
    }
    assert(x1 == (lj / pm + pc * hj) * pm + lj % pm) by {
        lemma_mul_is_commutative(pm, lj / pm + pc * hj);
    }
    lemma_fundamental_div_mod_converse_div(x1, pm, lj / pm + pc * hj, lj % pm);
    lemma_u64_shr_is_div(l[j], m as u64);
}

/// Window of `w` bits starting at bit `k` of the four-limb value, read from
/// one limb, agrees with the same window of the represented integer. The
/// window must not straddle a limb boundary.
pub proof fn lemma_val4_window(l: [u64; 4], k: int, w: nat)
    requires
        0 <= k < 256,
        1 <= w <= 32,
        k % 64 + w <= 64,
    ensures
        ((l[k / 64] >> ((k % 64) as u64)) & (vstd::bits::low_bits_mask(w) as u64)) == (val4(l) / (
        pow2(k as nat) as int)) % (pow2(w) as int),
{
    let j = k / 64;
    let m = k % 64;
    lemma_val4_div(l, k);
    lemma_pow2_val();
    lemma2_to64();
    let lj: int = l[j] as int;
    let hj: int = high4(l, j);
    let pm: int = pow2(m as nat) as int;
    let pc: int = pow2((64 - m) as nat) as int;
    let pw: int = pow2(w) as int;
    vstd::arithmetic::power2::lemma_pow2_pos(m as nat);
    vstd::arithmetic::power2::lemma_pow2_pos(w);
    // dropping the part above the window keeps the window: 2^(64 - m) is a
    // multiple of 2^w because the window fits in the limb
    lemma_pow2_adds(w, (64 - m - w) as nat);
    let ph: int = pow2((64 - m - w) as nat) as int;
    assert(pc == pw * ph);
    assert(pc * hj == pw * (ph * hj)) by {
        lemma_mul_is_associative(pw, ph, hj);
    }
    lemma_mod_multiples_vanish(ph * hj, lj / pm, pw);
    assert((lj / pm + pc * hj) % pw == (lj / pm) % pw);
    // the limb-level read is the same window
    lemma_low_bits_mask_values();
    vstd::bits::lemma_u64_pow2_no_overflow(w);
    lemma_u64_low_bits_mask_is_mod(l[j] >> (m as u64), w);
}

/// Window of `w` bits starting at bit `k`, where the window straddles the
/// boundary between limb `j` and limb `j + 1`: the low `64 - k % 64` bits
/// come from the top of limb `j` and the rest from the bottom of limb
/// `j + 1`.
pub proof fn lemma_val4_window_straddle(l: [u64; 4], k: int, w: nat)
    requires
        0 <= k < 192,
        1 <= w <= 32,
        k % 64 + w > 64,
    ensures
        (val4(l) / (pow2(k as nat) as int)) % (pow2(w) as int) == (l[k / 64] >> ((k
            % 64) as u64)) + (l[k / 64 + 1] & (vstd::bits::low_bits_mask(
            (k % 64 + w - 64) as nat,
        ) as u64)) * (pow2((64 - k % 64) as nat) as int),
{
    let j = k / 64;
    let m = k % 64;
    let w1: nat = (64 - m) as nat;
    let w2: nat = (w - w1) as nat;
    lemma_val4_div(l, k);
    lemma_pow2_val();
    lemma2_to64();
    let lj: int = l[j] as int;
    let hj: int = high4(l, j);
    let pm: int = pow2(m as nat) as int;
    let pc: int = pow2(w1) as int;
    let pw: int = pow2(w) as int;
    let p2: int = pow2(w2) as int;
    vstd::arithmetic::power2::lemma_pow2_pos(m as nat);
    vstd::arithmetic::power2::lemma_pow2_pos(w1);
    vstd::arithmetic::power2::lemma_pow2_pos(w2);
    vstd::arithmetic::power2::lemma_pow2_pos(w);
    lemma_pow2_adds(w1, w2);
    assert(pw == pc * p2);
    // the shifted limb is below 2^(64 - m)
    lemma_pow2_adds(m as nat, w1);
    assert(lj < pm * pc);
    vstd::arithmetic::div_mod::lemma_multiply_divide_lt(lj, pm, pc);
    assert(lj / pm < pc);
    // split the high limbs at w2 bits
    lemma_fundamental_div_mod(hj, p2);
    // (lj / pm) + pc * hj == (pc * p2) * (hj / p2) + ((lj / pm) + pc * (hj % p2))
    assert(pc * hj == pc * (p2 * (hj / p2)) + pc * (hj % p2)) by {
        lemma_mul_is_distributive_add(pc, p2 * (hj / p2), hj % p2);
    }
    assert(pc * (p2 * (hj / p2)) == (pc * p2) * (hj / p2)) by {
        lemma_mul_is_associative(pc, p2, hj / p2);
    }
    assert(0 <= hj % p2 < p2);
    assert(pc * (hj % p2) <= pc * (p2 - 1)) by {
        vstd::arithmetic::mul::lemma_mul_inequality(hj % p2, p2 - 1, pc);
        lemma_mul_is_commutative(pc, hj % p2);
        lemma_mul_is_commutative(pc, p2 - 1);
    }
    assert(pc * (p2 - 1) == pc * p2 - pc) by {
        vstd::arithmetic::mul::lemma_mul_is_distributive_sub(pc, p2, 1);
    }
    assert(0 <= (lj / pm) + pc * (hj % p2) < pw) by {
        vstd::arithmetic::mul::lemma_mul_nonnegative(pc, hj % p2);
    }
    assert((lj / pm) + pc * hj == pw * (hj / p2) + ((lj / pm) + pc * (hj % p2)));
    lemma_fundamental_div_mod_converse_mod(
        (lj / pm) + pc * hj,
        pw,
        hj / p2,
        (lj / pm) + pc * (hj % p2),
    );
    // the low w2 bits of the high limbs are the low w2 bits of limb j + 1
    assert(hj % p2 == (l[j + 1] as int) % p2) by {
        if j == 0 {
            assert(hj == l[1] + 0x10000000000000000int * (l[2] + l[3] * 0x10000000000000000int));
            lemma_pow2_adds(w2, (64 - w2) as nat);
            let pr: int = pow2((64 - w2) as nat) as int;
            assert(0x10000000000000000int * (l[2] + l[3] * 0x10000000000000000int) == p2 * (pr * (
            l[2] + l[3] * 0x10000000000000000int))) by (nonlinear_arith)
                requires
                    p2 * pr == 0x10000000000000000int,
            ;
            lemma_mod_multiples_vanish(pr * (l[2] + l[3] * 0x10000000000000000int), l[1] as int, p2);
        } else if j == 1 {
            assert(hj == l[2] + 0x10000000000000000int * (l[3] as int));
            lemma_pow2_adds(w2, (64 - w2) as nat);
            let pr: int = pow2((64 - w2) as nat) as int;
            assert(0x10000000000000000int * (l[3] as int) == p2 * (pr * (l[3] as int)))
                by (nonlinear_arith)
                requires
                    p2 * pr == 0x10000000000000000int,
            ;
            lemma_mod_multiples_vanish(pr * (l[3] as int), l[2] as int, p2);
        } else {
            assert(hj == l[3] as int);
            vstd::arithmetic::div_mod::lemma_mod_twice(l[3] as int, p2);
        }
    }
    // the limb-level reads
    lemma_low_bits_mask_values();
    vstd::bits::lemma_u64_pow2_no_overflow(w2);
    lemma_u64_low_bits_mask_is_mod(l[j + 1], w2);
    assert((l[j + 1] & (vstd::bits::low_bits_mask(w2) as u64)) as int == (l[j + 1] as int) % p2);
    assert((val4(l) / (pow2(k as nat) as int)) % pw == (lj / pm) + pc * (hj % p2));
    assert(pc * (hj % p2) == (hj % p2) * pc) by {
        lemma_mul_is_commutative(pc, hj % p2);
    }
}

/// Bit `k` of the four-limb value, read from the limbs, agrees with bit `k`
/// of the represented integer.
proof fn lemma_val4_bit(l: [u64; 4], k: int)
    requires
        0 <= k < 256,
    ensures
        limb_bit(l, k) <==> (val4(l) / (pow2(k as nat) as int)) % 2 == 1,
{
    lemma_val4_window(l, k, 1);
    lemma_low_bits_mask_values();
    lemma2_to64();
    assert((val4(l) / (pow2(k as nat) as int)) % (pow2(1) as int) == (val4(l) / (pow2(
        k as nat,
    ) as int)) % 2);
}

/// Multiply two canonical values modulo `q`, processing the multiplier bit
/// by bit from the most significant end.
pub fn mul_mod_limbs(a: [u64; 4], b: [u64; 4]) -> (r: [u64; 4])
    requires
        val4(a) < modulus(),
        val4(b) < modulus(),
    ensures
        val4(r) < modulus(),
        val4(r) == (val4(a) * val4(b)) % modulus(),
{
    let mut r: [u64; 4] = [0, 0, 0, 0];
    let mut idx: usize = 256;
    proof {
        lemma_pow2_val();
        lemma_basic_div(val4(b), pow2(256) as int);
        assert(val4(b) / (pow2(256) as int) == 0);
        assert(val4(a) * 0 == 0) by (nonlinear_arith);
        vstd::arithmetic::div_mod::lemma_mod_self_0(modulus());
        assert(val4(r) == (val4(a) * (val4(b) / (pow2(256) as int))) % modulus());
    }
    while idx > 0
        invariant
            idx <= 256,
            val4(a) < modulus(),
            val4(b) < modulus(),
            val4(r) < modulus(),
            val4(r) == (val4(a) * (val4(b) / (pow2(idx as nat) as int))) % modulus(),
        decreases idx,
    {
        idx -= 1;
        let ghost x: int = val4(a);
        let ghost y: int = val4(b);
        let ghost t: int = y / (pow2((idx + 1) as nat) as int);
        let ghost r0: int = val4(r);
        r = add_mod(r, r);
        let li: usize = idx / 64;
        let bp: u64 = (idx % 64) as u64;
        let bit: bool = (b[li] >> bp) & 1 == 1;
        if bit {
            r = add_mod(r, a);
        }
        proof {
            lemma_val4_bit(b, idx as int);
            let pi: int = pow2(idx as nat) as int;
            vstd::arithmetic::power2::lemma_pow2_pos(idx as nat);
            lemma2_to64();
            lemma_pow2_adds(idx as nat, 1);
            lemma_div_denominator(y, pi, 2);
            lemma_fundamental_div_mod(y / pi, 2);
            let bd: int = (y / pi) % 2;
            assert(y / pi == 2 * t + bd);
            assert(limb_bit(b, idx as int) <==> bd == 1);
            assert(bit <==> bd == 1);
            // after doubling: (r0 + r0) % q == (2 * (x * t)) % q
            lemma_add_mod_noop(x * t, x * t, modulus());
            assert((r0 + r0) % modulus() == (x * t + x * t) % modulus());
            if bit {
                lemma_add_mod_noop((x * t + x * t), x, modulus());
                lemma_small_mod(x as nat, modulus() as nat);
                assert(val4(r) == (x * t + x * t + x) % modulus());
                assert(x * t + x * t + x == x * (y / pi)) by (nonlinear_arith)
                    requires
                        y / pi == 2 * t + bd,
                        bd == 1,
                ;
            } else {
                assert(val4(r) == (x * t + x * t) % modulus());
                assert(x * t + x * t == x * (y / pi)) by (nonlinear_arith)
                    requires
                        y / pi == 2 * t + bd,
                        bd == 0,
                ;
            }
            assert(val4(r) == (x * (y / pi)) % modulus());
        }
    }
    proof {
        lemma2_to64();
        assert(val4(b) / (pow2(0) as int) == val4(b)) by {
            vstd::arithmetic::div_mod::lemma_div_basics(val4(b));
        }
    }
    r
}

/// A scalar field element, stored in Montgomery form.
#[derive(Clone, Copy, Debug, PartialEq, Eq, Hash)]
pub struct ScalarField {
    pub limbs: [u64; 4],
}

/// Stored limbs are canonical.
pub open spec fn sf_wf(s: ScalarField) -> bool {
    val4(s.limbs) < modulus()
}

/// The raw stored value `a * R mod q`.
pub open spec fn sval(s: ScalarField) -> int {
    val4(s.limbs)
}

/// The field element represented: stored value times `R^{-1}`, modulo `q`.
pub open spec fn mont_val(s: ScalarField) -> int {
    (val4(s.limbs) * mont_rinv()) % modulus()
}

/// A canonical value below `q` is pinned down by what it represents times
/// `R`: the Montgomery radix cancels.
proof fn lemma_mont_cancel(x: int, y: int)
    requires
        0 <= x < modulus(),
        (x * mont_radix()) % modulus() == y % modulus(),
    ensures
        x == (y * mont_rinv()) % modulus(),
{
    lemma_mont_facts();
    let md = modulus();
    lemma_small_mod(x as nat, md as nat);
    lemma_mul_mod_noop_right(x, mont_rinv() * mont_radix(), md);
    assert(x * (mont_rinv() * mont_radix()) == (x * mont_radix()) * mont_rinv()) by (nonlinear_arith);
    lemma_mul_mod_noop_left(x * mont_radix(), mont_rinv(), md);
    lemma_mul_mod_noop_left(y, mont_rinv(), md);
    assert((x * ((mont_rinv() * mont_radix()) % md)) % md == x % md);
    assert(x == (x * (mont_rinv() * mont_radix())) % md);
    assert(x == ((x * mont_radix()) % md * mont_rinv()) % md);
    assert(x == (y % md * mont_rinv()) % md);
}

/// Montgomery multiplication: the result is canonical and represents the
/// product of what the operands represent, that is `r * R = a * b (mod q)`.
pub fn montgomery_mul(a: ScalarField, b: ScalarField) -> (r: ScalarField)
    requires
        sf_wf(a),
        sf_wf(b),
    ensures
        sf_wf(r),
        (sval(r) * mont_radix()) % modulus() == (sval(a) * sval(b)) % modulus(),
        mont_val(r) == (mont_val(a) * mont_val(b)) % modulus(),
{
    let t: [u64; 4] = mul_mod_limbs(a.limbs, b.limbs);
    let rinv: [u64; 4] = [0x43c47e18bf461e4e, 0x9253b03dea87f21e, 0x535609cbc825b86d, 0x00b32c7e5892fe0f];
    proof {
        assert(val4(rinv) == mont_rinv());
        lemma_mont_facts();
    }
    let rl: [u64; 4] = mul_mod_limbs(t, rinv);
    let r = ScalarField { limbs: rl };
    proof {
        let md = modulus();
        let x = sval(a);
        let y = sval(b);
        let xy = x * y;
        // sval(r) == (xy * rinv) % q
        lemma_mul_mod_noop_left(xy, mont_rinv(), md);
        assert(sval(r) == (xy * mont_rinv()) % md);
        // multiply back by R: the radix cancels
        lemma_mul_mod_noop_left(xy * mont_rinv(), mont_radix(), md);
        assert((xy * mont_rinv()) * mont_radix() == xy * (mont_rinv() * mont_radix())) by (nonlinear_arith);
        lemma_mul_mod_noop_right(xy, mont_rinv() * mont_radix(), md);
        assert((sval(r) * mont_radix()) % md == (xy * (mont_rinv() * mont_radix())) % md);
        assert((xy * ((mont_rinv() * mont_radix()) % md)) % md == (xy * 1) % md);
        assert((sval(r) * mont_radix()) % md == xy % md);
        // the represented values multiply
        let ma = mont_val(a);
        let mb = mont_val(b);
        lemma_mul_mod_noop_left(x, mont_rinv(), md);
        lemma_mul_mod_noop_right((x * mont_rinv()) % md, y * mont_rinv(), md);
        lemma_mul_mod_noop_left(x * mont_rinv(), y * mont_rinv(), md);
        assert((ma * mb) % md == ((x * mont_rinv()) * (y * mont_rinv())) % md);
        let ri = mont_rinv();
        assert((x * ri) * (y * ri) == ((x * y) * ri) * ri) by (nonlinear_arith);
        lemma_mul_mod_noop_left(xy * mont_rinv(), mont_rinv(), md);
        assert(mont_val(r) == ((xy * mont_rinv()) % md * mont_rinv()) % md);
        assert((ma * mb) % md == mont_val(r));
    }
    r
}



/// The bits of a canonical value, least significant first.
pub open spec fn scalar_bits(x: int) -> Seq<bool> {
    Seq::new(256, |i: int| (x / (pow2(i as nat) as int)) % 2 == 1)
}

/// The limb-level bits of a four-limb value are the bits of the value it
/// represents.
pub proof fn lemma_limbs_give_value_bits(l: [u64; 4])
    ensures
        bits_of_limbs(l) == scalar_bits(val4(l)),
{
    assert forall|i: int| 0 <= i < 256 implies bits_of_limbs(l)[i] == scalar_bits(val4(l))[i] by {
        lemma_val4_bit(l, i);
    }
    assert(bits_of_limbs(l) =~= scalar_bits(val4(l)));
}

/// Entering Montgomery form stores `x * R mod q`.
pub open spec fn to_mont_form(x: int) -> int {
    (x * mont_r()) % modulus()
}

/// Leaving Montgomery form recovers the represented value.
pub open spec fn from_mont_form(v: int) -> int {
    (v * mont_rinv()) % modulus()
}

/// Converting into Montgomery form and back returns the canonical value
/// unchanged.
pub proof fn lemma_mont_roundtrip(x: int)
    requires
        0 <= x < modulus(),
    ensures
        from_mont_form(to_mont_form(x)) == x,
{
    lemma_mont_facts();
    let md = modulus();
    let ri = mont_rinv();
    lemma_mul_mod_noop_left((x * mont_r()), ri, md);
    assert(from_mont_form(to_mont_form(x)) == (x * mont_r() * ri) % md);
    assert(x * mont_r() * ri == x * (mont_r() * ri)) by (nonlinear_arith);
    lemma_mul_mod_noop_right(x, mont_r() * ri, md);
    // R * R^{-1} = (2^256 mod q) * R^{-1} = 1 (mod q)
    lemma_mul_mod_noop_left(mont_radix(), ri, md);
    assert((mont_r() * ri) % md == (mont_radix() * ri) % md);
    assert(mont_radix() * ri == ri * mont_radix()) by (nonlinear_arith);
    assert((mont_r() * ri) % md == 1);
    lemma_small_mod(x as nat, md as nat);
}

/// Square-and-multiply state machine over represented values.
pub open spec fn spow_loop(acc: int, base: int, bits: Seq<bool>) -> int
    decreases bits.len(),
{
    if bits.len() == 0 {
        acc
    } else {
        spow_loop(
            if bits[0] {
                (acc * base) % modulus()
            } else {
                acc
            },
            (base * base) % modulus(),
            bits.skip(1),
        )
    }
}

/// Limb `j` of `q - 2`, the Fermat inversion exponent.
pub open spec fn inv_exp_limb(j: int) -> u64 {
    if j == 0 {
        0xf2154ff8a2e94d7f
    } else if j == 1 {
        0xf85ccc2efc3068fa
    } else if j == 2 {
        0x40f5f26a5ae1748f
    } else {
        0x00f06e44682c2aa4
    }
}

/// The bits of `q - 2`, least significant first.
pub open spec fn inv_exp_bits() -> Seq<bool> {
    Seq::new(256, |i: int| (inv_exp_limb(i / 64) >> ((i % 64) as u64)) & 1 == 1)
}

/// The Fermat inverse `x^(q - 2)` of a represented value.
pub open spec fn scalar_inverse_v(x: int) -> int {
    spow_loop(1, x, inv_exp_bits())
}

/// Multiplying residues is associative.
pub proof fn lemma_scalar_mul_associative(x: int, y: int, z: int)
    ensures
        (((x * y) % modulus()) * z) % modulus() == (x * ((y * z) % modulus())) % modulus(),
{
    let md = modulus();
    lemma_mul_mod_noop_left(x * y, z, md);
    assert((x * y) * z == x * (y * z)) by (nonlinear_arith);
    lemma_mul_mod_noop_right(x, y * z, md);
}

/// Multiplying residues distributes over their sum.
pub proof fn lemma_scalar_mul_distributive(x: int, y: int, z: int)
    ensures
        (((x + y) % modulus()) * z) % modulus() == ((x * z) % modulus() + (y * z) % modulus())
            % modulus(),
{
    let md = modulus();
    lemma_mul_mod_noop_left(x + y, z, md);
    assert((x + y) * z == x * z + y * z) by (nonlinear_arith);
    lemma_add_mod_noop(x * z, y * z, md);
}

/// A residue plus its negation is zero.
pub proof fn lemma_scalar_add_neg(x: int)
    requires
        0 <= x < modulus(),
    ensures
        (x + (modulus() - x) % modulus()) % modulus() == 0,
{
    let md = modulus();
    if x == 0 {
        vstd::arithmetic::div_mod::lemma_mod_self_0(md);
        lemma_small_mod(0nat, md as nat);
    } else {
        lemma_small_mod((md - x) as nat, md as nat);
        vstd::arithmetic::div_mod::lemma_mod_self_0(md);
    }
}

proof fn lemma_mval_add(x: int, y: int)
    requires
        0 <= x < modulus(),
        0 <= y < modulus(),
    ensures
        (((x + y) % modulus()) * mont_rinv()) % modulus() == ((x * mont_rinv()) % modulus() + (y
            * mont_rinv()) % modulus()) % modulus(),
{
    let md = modulus();
    let ri = mont_rinv();
    lemma_mul_mod_noop_left(x + y, ri, md);
    assert((x + y) * ri == x * ri + y * ri) by (nonlinear_arith);
    lemma_add_mod_noop(x * ri, y * ri, md);
}

proof fn lemma_mval_sub(x: int, y: int)
    requires
        0 <= x < modulus(),
        0 <= y < modulus(),
    ensures
        (((x - y) % modulus()) * mont_rinv()) % modulus() == ((x * mont_rinv()) % modulus() - (y
            * mont_rinv()) % modulus()) % modulus(),
{
    let md = modulus();
    let ri = mont_rinv();
    lemma_mul_mod_noop_left(x - y, ri, md);
    assert((x - y) * ri == x * ri - y * ri) by (nonlinear_arith);
    lemma_sub_mod_noop(x * ri, y * ri, md);
}

impl ScalarField {
    /// The additive identity.
    pub fn zero() -> (r: ScalarField)
        ensures
            sf_wf(r),
            sval(r) == 0,
            mont_val(r) == 0,
    {
        let r = ScalarField { limbs: [0, 0, 0, 0] };
        proof {
            assert(0int * mont_rinv() == 0) by (nonlinear_arith);
            lemma_small_mod(0nat, modulus() as nat);
        }
        r
    }

    /// The multiplicative identity, stored as `R mod q`.
    pub fn one() -> (r: ScalarField)
        ensures
            sf_wf(r),
            sval(r) == mont_r(),
            mont_val(r) == 1,
    {
        let r = ScalarField {
            limbs: [0xc95b07d2e81da6f0, 0x1d670e140c90755e, 0xfaae6eff70742708, 0x008ad7515112b17a],
        };
        proof {
            lemma_mont_facts();
            let md = modulus();
            let ri = mont_rinv();
            lemma_mul_mod_noop_left(mont_radix(), ri, md);
            assert(mont_radix() * ri == ri * mont_radix()) by (nonlinear_arith);
            assert((mont_r() * ri) % md == 1);
        }
        r
    }

    /// The multiplicative generator, the field element five.
    pub fn generator() -> (r: ScalarField)
        ensures
            sf_wf(r),
            mont_val(r) == 5,
    {
        let r = ScalarField {
            limbs: [0x0a9c872d42c1a7ae, 0xa249ae06467178e4, 0x637c46287c81da08, 0x00d5580dc505221e],
        };
        proof {
            lemma_fundamental_div_mod_converse_mod(
                sval(r) * mont_rinv(),
                modulus(),
                0x9efcfa87302bc6ac71a6e2ed36374b17334fadc9c7f0904f2aca30a512087fint,
                5,
            );
        }
        r
    }

    /// Whether this element is zero.
    pub fn is_zero(&self) -> (r: bool)
        ensures
            r <==> sval(*self) == 0,
    {
        self.limbs[0] == 0 && self.limbs[1] == 0 && self.limbs[2] == 0 && self.limbs[3] == 0
    }

    /// Limb-wise equality; equal limbs mean equal field elements.
    pub fn equals(&self, other: &ScalarField) -> (r: bool)
        ensures
            r <==> self.limbs == other.limbs,
    {
        let r = self.limbs[0] == other.limbs[0] && self.limbs[1] == other.limbs[1]
            && self.limbs[2] == other.limbs[2] && self.limbs[3] == other.limbs[3];
        proof {
            if r {
                assert(self.limbs =~= other.limbs);
            }
        }
        r
    }

    /// Field addition.
    pub fn add(self, rhs: ScalarField) -> (r: ScalarField)
        requires
            sf_wf(self),
            sf_wf(rhs),
        ensures
            sf_wf(r),
            sval(r) == (sval(self) + sval(rhs)) % modulus(),
            mont_val(r) == (mont_val(self) + mont_val(rhs)) % modulus(),
    {
        let r = ScalarField { limbs: add_mod(self.limbs, rhs.limbs) };
        proof {
            lemma_mval_add(sval(self), sval(rhs));
        }
        r
    }

    /// Field subtraction.
    pub fn sub(self, rhs: ScalarField) -> (r: ScalarField)
        requires
            sf_wf(self),
            sf_wf(rhs),
        ensures
            sf_wf(r),
            sval(r) == (sval(self) - sval(rhs)) % modulus(),
            mont_val(r) == (mont_val(self) - mont_val(rhs)) % modulus(),
    {
        let r = ScalarField { limbs: sub_mod(self.limbs, rhs.limbs) };
        proof {
            lemma_mval_sub(sval(self), sval(rhs));
        }
        r
    }

    /// Field negation.
    pub fn neg(self) -> (r: ScalarField)
        requires
            sf_wf(self),
        ensures
            sf_wf(r),
            sval(r) == (modulus() - sval(self)) % modulus(),
            mont_val(r) == (0 - mont_val(self)) % modulus(),
    {
        let r = ScalarField { limbs: neg_mod(self.limbs) };
        proof {
            let md = modulus();
            let ri = mont_rinv();
            let x = sval(self);
            lemma_mul_mod_noop_left(md - x, ri, md);
            assert((md - x) * ri == md * ri + (0 - x * ri)) by (nonlinear_arith);
            lemma_mod_multiples_vanish(ri, 0 - x * ri, md);
            lemma_sub_mod_noop(0, x * ri, md);
            lemma_small_mod(0nat, md as nat);
        }
        r
    }

    /// Field multiplication through the Montgomery representation.
    pub fn mul(self, rhs: ScalarField) -> (r: ScalarField)
        requires
            sf_wf(self),
            sf_wf(rhs),
        ensures
            sf_wf(r),
            mont_val(r) == (mont_val(self) * mont_val(rhs)) % modulus(),
    {
        montgomery_mul(self, rhs)
    }

    /// Enter Montgomery form from canonical limbs.
    pub fn from_canonical_limbs(limbs: [u64; 4]) -> (r: ScalarField)
        requires
            val4(limbs) < modulus(),
        ensures
            sf_wf(r),
            sval(r) == to_mont_form(val4(limbs)),
            mont_val(r) == val4(limbs),
    {
        let r2 = ScalarField {
            limbs: [0x23eabb3eaf3c12e3, 0xefbc3b2088f7b0f7, 0x0943bc9a31f37148, 0x004497b874228e49],
        };
        proof {
            lemma_mont_facts();
        }
        let r = montgomery_mul(ScalarField { limbs }, r2);
        proof {
            let md = modulus();
            let ri = mont_rinv();
            let v = val4(limbs);
            lemma_mont_cancel(sval(r), v * mont_r2());
            lemma_mul_mod_noop_left(v * mont_r2(), ri, md);
            assert((v * mont_r2()) * ri == v * (mont_r2() * ri)) by (nonlinear_arith);
            lemma_mul_mod_noop_right(v, mont_r2() * ri, md);
            assert(sval(r) == (v * mont_r()) % md);
            lemma_mont_roundtrip(v);
        }
        r
    }

    /// Enter Montgomery form from a canonical machine integer.
    pub fn from_canonical_u64(val: u64) -> (r: ScalarField)
        ensures
            sf_wf(r),
            sval(r) == to_mont_form(val as int),
            mont_val(r) == val,
    {
        let limbs: [u64; 4] = [val, 0, 0, 0];
        ScalarField::from_canonical_limbs(limbs)
    }

    /// Leave Montgomery form: the canonical limbs of the represented value.
    pub fn to_canonical_u64_vec(&self) -> (r: [u64; 4])
        requires
            sf_wf(*self),
        ensures
            val4(r) < modulus(),
            val4(r) == mont_val(*self),
    {
        let one_raw = ScalarField { limbs: [1, 0, 0, 0] };
        let t = montgomery_mul(*self, one_raw);
        proof {
            let md = modulus();
            let x = sval(*self);
            assert(x * 1 == x) by (nonlinear_arith);
            lemma_mont_cancel(sval(t), x);
        }
        t.limbs
    }

    /// Square-and-multiply exponentiation by four little-endian limbs; zero
    /// raised to anything is zero.
    pub fn pow_vartime(&self, exp: [u64; 4]) -> (r: ScalarField)
        requires
            sf_wf(*self),
        ensures
            sf_wf(r),
            sval(*self) == 0 ==> sval(r) == 0,
            sval(*self) != 0 ==> mont_val(r) == spow_loop(1, mont_val(*self), bits_of_limbs(exp)),
    {
        if self.is_zero() {
            return ScalarField::zero();
        }
        let ghost allbits = bits_of_limbs(exp);
        let mut result = ScalarField::one();
        let mut base = *self;
        proof {
            assert(allbits.skip(0) =~= allbits);
        }
        let mut li: usize = 0;
        while li < 4
            invariant
                li <= 4,
                sf_wf(result),
                sf_wf(base),
                allbits == bits_of_limbs(exp),
                spow_loop(mont_val(result), mont_val(base), allbits.skip(64 * li)) == spow_loop(
                    1,
                    mont_val(*self),
                    allbits,
                ),
            decreases 4 - li,
        {
            let mut limb: u64 = exp[li];
            let mut b: usize = 0;
            proof {
                let cur: u64 = exp[li as int];
                assert(cur >> 0u64 == cur) by (bit_vector);
            }
            while b < 64
                invariant
                    li < 4,
                    b <= 64,
                    sf_wf(result),
                    sf_wf(base),
                    allbits == bits_of_limbs(exp),
                    b < 64 ==> limb == exp[li as int] >> (b as u64),
                    spow_loop(mont_val(result), mont_val(base), allbits.skip(64 * li + b))
                        == spow_loop(1, mont_val(*self), allbits),
                decreases 64 - b,
            {
                let ghost i: int = 64 * (li as int) + (b as int);
                proof {
                    assert(0 <= i < 256);
                    assert(i / 64 == li && i % 64 == b) by {
                        vstd::arithmetic::div_mod::lemma_fundamental_div_mod_converse(
                            i,
                            64,
                            li as int,
                            b as int,
                        );
                    }
                    assert(allbits[i] == ((limb & 1) == 1));
                    assert(allbits.skip(i).len() == 256 - i);
                    assert(allbits.skip(i)[0] == allbits[i]);
                    assert(allbits.skip(i).skip(1) =~= allbits.skip(i + 1));
                }
                if limb & 1 == 1 {
                    result = result.mul(base);
                }
                base = base.mul(base);
                proof {
                    if b + 1 < 64 {
                        let cur: u64 = exp[li as int];
                        let b64: u64 = b as u64;
                        assert((cur >> b64) >> 1u64 == cur >> ((b64 + 1) as u64)) by (bit_vector)
                            requires
                                b64 < 63,
                        ;
                    }
                }
                limb = limb >> 1u64;
                b += 1;
            }
            li += 1;
            proof {
                assert(64 * (li - 1) + 64 == 64 * li);
            }
        }
        proof {
            assert(allbits.skip(256int) =~= Seq::<bool>::empty());
        }
        result
    }

    /// Fermat inverse: raises to `q - 2`. The inverse of zero is zero.
    pub fn inverse(&self) -> (r: ScalarField)
        requires
            sf_wf(*self),
        ensures
            sf_wf(r),
            sval(*self) == 0 ==> sval(r) == 0,
            sval(*self) != 0 ==> mont_val(r) == scalar_inverse_v(mont_val(*self)),
    {
        let e: [u64; 4] = [
            0xf2154ff8a2e94d7f,
            0xf85ccc2efc3068fa,
            0x40f5f26a5ae1748f,
            0x00f06e44682c2aa4,
        ];
        let r = self.pow_vartime(e);
        proof {
            if sval(*self) != 0 {
                assert forall|i: int| 0 <= i < 256 implies bits_of_limbs(e)[i] == inv_exp_bits()[i] by {
                    assert(e[i / 64] == inv_exp_limb(i / 64));
                }
                assert(bits_of_limbs(e) =~= inv_exp_bits());
            }
        }
        r
    }

    /// The inverse where it exists: `None` exactly on zero.
    pub fn try_inverse(&self) -> (r: Option<ScalarField>)
        requires
            sf_wf(*self),
        ensures
            r.is_some() <==> sval(*self) != 0,
            r matches Some(inv) ==> sf_wf(inv) && mont_val(inv) == scalar_inverse_v(
                mont_val(*self),
            ),
    {
        if self.is_zero() {
            None
        } else {
            Some(self.inverse())
        }
    }
}


/// Limb `j` as assembled from eight little-endian bytes.
pub open spec fn limb_of_bytes(b: [u8; 32], j: int) -> int {
    b[8 * j] + b[8 * j + 1] * 0x100 + b[8 * j + 2] * 0x10000 + b[8 * j + 3] * 0x1000000 + b[8 * j
        + 4] * 0x100000000 + b[8 * j + 5] * 0x10000000000 + b[8 * j + 6] * 0x1000000000000 + b[8 * j
        + 7] * 0x100000000000000
}

/// The 248-bit value drawn from 32 random bytes: the top byte is dropped.
pub open spec fn sample_val(b: [u8; 32]) -> int {
    limb_of_bytes(b, 0) + limb_of_bytes(b, 1) * 0x10000000000000000int + limb_of_bytes(b, 2)
        * 0x100000000000000000000000000000000int + (limb_of_bytes(b, 3) - b[31]
        * 0x100000000000000) * 0x1000000000000000000000000000000000000000000000000int
}

impl ScalarField {
    /// Rejection sampling step: interpret 32 random bytes as a 248-bit
    /// little-endian integer (the top byte is zeroed) and accept it exactly
    /// when it is canonical.
    pub fn from_random_bytes(bytes: &[u8; 32]) -> (r: Option<ScalarField>)
        ensures
            r.is_some() <==> sample_val(*bytes) < modulus(),
            r matches Some(s) ==> sf_wf(s) && mont_val(s) == sample_val(*bytes),
    {
        let mut limbs: [u64; 4] = [0, 0, 0, 0];
        let mut j: usize = 0;
        while j < 4
            invariant
                j <= 4,
                forall|t: int|
                    0 <= t < j ==> limbs[t] == limb_of_bytes(*bytes, t) - if t == 3 {
                        (bytes[31] as int) * 0x100000000000000
                    } else {
                        0int
                    },
            decreases 4 - j,
        {
            let base: usize = 8 * j;
            let top: u64 = if j == 3 {
                0
            } else {
                (bytes[base + 7] as u64) * 0x100000000000000
            };
            limbs[j] = (bytes[base] as u64) + (bytes[base + 1] as u64) * 0x100 + (bytes[base
                + 2] as u64) * 0x10000 + (bytes[base + 3] as u64) * 0x1000000 + (bytes[base
                + 4] as u64) * 0x100000000 + (bytes[base + 5] as u64) * 0x10000000000 + (bytes[base
                + 6] as u64) * 0x1000000000000 + top;
            j += 1;
        }
        proof {
            assert(val4(limbs) == sample_val(*bytes));
        }
        if is_canonical(limbs) {
            Some(ScalarField::from_canonical_limbs(limbs))
        } else {
            None
        }
    }
}

} // verus!
