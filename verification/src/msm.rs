//! Fixed-base and double-scalar multiplication with byte-window tables.

use vstd::prelude::*;

verus! {

use crate::affine::{
    add_v, double_v, generator_v, infinity_v, pt_wf, pv, Affine, PointV,
};
use crate::basefield::FP;
use crate::scalarfield::{
    lemma_val4_window, mont_val, sf_wf, val4, ScalarField,
};
use vstd::arithmetic::power2::pow2;

/// The table of small multiples of a point: entry `i` holds `i * P`,
/// built by repeatedly adding `P`.
pub open spec fn mult_table_v(p: PointV, i: int) -> PointV
    decreases i,
{
    if i <= 0 {
        infinity_v()
    } else if i == 1 {
        p
    } else {
        add_v(mult_table_v(p, i - 1), p)
    }
}

/// Byte `pos` of a canonical value, least significant byte first.
pub open spec fn value_byte(x: int, pos: int) -> int {
    (x / (pow2((8 * pos) as nat) as int)) % 256
}

/// `n` successive doublings.
pub open spec fn double_n_v(p: PointV, n: int) -> PointV
    decreases n,
{
    if n <= 0 {
        p
    } else {
        double_v(double_n_v(p, n - 1))
    }
}

/// One byte-window step of the double-scalar scan: eight doublings, then
/// the table entries selected by the two byte windows.
pub open spec fn dsm_step_v(acc: PointV, p: PointV, aw: int, bw: int, use_b: bool) -> PointV {
    let d = double_n_v(acc, 8);
    let d2 = if aw != 0 {
        add_v(d, mult_table_v(generator_v(), aw))
    } else {
        d
    };
    if use_b && bw != 0 {
        add_v(d2, mult_table_v(p, bw))
    } else {
        d2
    }
}

/// The state after the top `k` byte positions of the two scalars have been
/// scanned.
pub open spec fn dsm_rec(av: int, bv: int, p: PointV, use_b: bool, k: int) -> PointV
    decreases k,
{
    if k <= 0 {
        infinity_v()
    } else {
        dsm_step_v(
            dsm_rec(av, bv, p, use_b, k - 1),
            p,
            value_byte(av, 32 - k),
            value_byte(bv, 32 - k),
            use_b,
        )
    }
}

/// The byte-window double-scalar multiplication `a * G + b * P`.
pub open spec fn dsm_v(av: int, bv: int, p: PointV) -> PointV {
    dsm_rec(av, bv, p, true, 32)
}

/// The byte-window fixed-base multiplication `a * G`.
pub open spec fn gen_mul_v(av: int) -> PointV {
    dsm_rec(av, 0, infinity_v(), false, 32)
}

/// Build the 256-entry table of small multiples of a point.
fn build_mult_table(p: &Affine) -> (r: Vec<Affine>)
    requires
        pt_wf(*p),
    ensures
        r@.len() == 256,
        forall|i: int| 0 <= i < 256 ==> pt_wf(#[trigger] r@[i]),
        forall|i: int| 0 <= i < 256 ==> pv(#[trigger] r@[i]) == mult_table_v(pv(*p), i),
{
    let mut table: Vec<Affine> = Vec::new();
    table.push(Affine::infinity());
    table.push(*p);
    let mut i: usize = 2;
    while i < 256
        invariant
            2 <= i <= 256,
            pt_wf(*p),
            table@.len() == i,
            forall|t: int| 0 <= t < i ==> pt_wf(#[trigger] table@[t]),
            forall|t: int| 0 <= t < i ==> pv(#[trigger] table@[t]) == mult_table_v(pv(*p), t),
        decreases 256 - i,
    {
        let prev = table[i - 1];
        let next = prev.add(table[1]);
        table.push(next);
        i += 1;
    }
    table
}

/// The byte-window scan shared by the fixed-base and double-scalar paths.
fn dsm_scan(
    a_limbs: [u64; 4],
    b_limbs: [u64; 4],
    base_table: &Vec<Affine>,
    point_table: &Vec<Affine>,
    use_b: bool,
    Ghost(pp): Ghost<PointV>,
) -> (r: Affine)
    requires
        base_table@.len() == 256,
        point_table@.len() == 256,
        forall|i: int| 0 <= i < 256 ==> pt_wf(#[trigger] base_table@[i]),
        forall|i: int| 0 <= i < 256 ==> pt_wf(#[trigger] point_table@[i]),
        forall|i: int|
            0 <= i < 256 ==> pv(#[trigger] base_table@[i]) == mult_table_v(generator_v(), i),
        forall|i: int| 0 <= i < 256 ==> pv(#[trigger] point_table@[i]) == mult_table_v(pp, i),
    ensures
        pt_wf(r),
        pv(r) == dsm_rec(val4(a_limbs), val4(b_limbs), pp, use_b, 32),
{
    let ghost av = val4(a_limbs);
    let ghost bv = val4(b_limbs);
    let mut result = Affine::infinity();
    let mut pos: usize = 32;
    while pos > 0
        invariant
            pos <= 32,
            pt_wf(result),
            av == val4(a_limbs),
            bv == val4(b_limbs),
            base_table@.len() == 256,
            point_table@.len() == 256,
            forall|i: int| 0 <= i < 256 ==> pt_wf(#[trigger] base_table@[i]),
            forall|i: int| 0 <= i < 256 ==> pt_wf(#[trigger] point_table@[i]),
            forall|i: int|
                0 <= i < 256 ==> pv(#[trigger] base_table@[i]) == mult_table_v(generator_v(), i),
            forall|i: int| 0 <= i < 256 ==> pv(#[trigger] point_table@[i]) == mult_table_v(pp, i),
            pv(result) == dsm_rec(av, bv, pp, use_b, 32 - pos),
        decreases pos,
    {
        pos -= 1;
        let li: usize = pos / 8;
        let sh: u64 = ((pos % 8) * 8) as u64;
        let ghost before = pv(result);
        let mut d: usize = 0;
        while d < 8
            invariant
                d <= 8,
                pt_wf(result),
                pv(result) == double_n_v(before, d as int),
            decreases 8 - d,
        {
            result = result.double();
            d += 1;
        }
        proof {
            lemma_val4_window(a_limbs, 8 * pos as int, 8);
            lemma_val4_window(b_limbs, 8 * pos as int, 8);
            vstd::bits::lemma_low_bits_mask_values();
            assert((8 * pos as int) / 64 == pos as int / 8 && (8 * pos as int) % 64 == (pos as int
                % 8) * 8) by (nonlinear_arith)
                requires
                    0 <= pos < 32,
            ;
            vstd::arithmetic::power2::lemma2_to64();
        }
        let a_window: u64 = (a_limbs[li] >> sh) & 0xFF;
        proof {
            assert(a_window == value_byte(av, pos as int));
        }
        if a_window != 0 {
            result = result.add(base_table[a_window as usize]);
        }
        if use_b {
            let b_window: u64 = (b_limbs[li] >> sh) & 0xFF;
            proof {
                assert(b_window == value_byte(bv, pos as int));
            }
            if b_window != 0 {
                result = result.add(point_table[b_window as usize]);
            }
        }
        proof {
            assert(pv(result) == dsm_step_v(
                before,
                pp,
                value_byte(av, pos as int),
                value_byte(bv, pos as int),
                use_b,
            ));
        }
    }
    result
}

/// Compute `a * G + b * P` with a byte-window table for the generator and a
/// per-call byte-window table for `P`.
pub fn double_scalar_mul_basepoint_affine(a: &ScalarField, b: &ScalarField, point: &Affine) -> (r:
    Affine)
    requires
        sf_wf(*a),
        sf_wf(*b),
        pt_wf(*point),
    ensures
        pt_wf(r),
        pv(r) == dsm_v(mont_val(*a), mont_val(*b), pv(*point)),
{
    let base_table = build_mult_table(&Affine::generator());
    let point_table = build_mult_table(point);
    let a_limbs = a.to_canonical_u64_vec();
    let b_limbs = b.to_canonical_u64_vec();
    dsm_scan(a_limbs, b_limbs, &base_table, &point_table, true, Ghost(pv(*point)))
}

/// Multiply the fixed generator by a scalar with the byte-window table.
pub fn mul_generator_affine(scalar: &ScalarField) -> (r: Affine)
    requires
        sf_wf(*scalar),
    ensures
        pt_wf(r),
        pv(r) == gen_mul_v(mont_val(*scalar)),
{
    let base_table = build_mult_table(&Affine::generator());
    let point_table = build_mult_table(&Affine::infinity());
    let a_limbs = scalar.to_canonical_u64_vec();
    let zero_limbs: [u64; 4] = [0, 0, 0, 0];
    dsm_scan(a_limbs, zero_limbs, &base_table, &point_table, false, Ghost(infinity_v()))
}

} // verus!
