//! The Schnorr verification AIR: one interleaved double-and-add loop over
//! the bits of `s` and `-e`, with a preprocessed generator-doubling table.

use vstd::prelude::*;

verus! {

use crate::affine::{generator_v, Affine, PointV};
use crate::basefield::{
    addv, fp_add, fp_mul, fp_sub, fp8_eq_v, fp8_one_v, fp8_wf, mulsv, mulv, subv, v8, Fp8, FP,
};
use crate::errors::SchnorrError;
use crate::point_ops::{cp_wf, cpv, scalar_to_bits, CircuitPoint};
use crate::scalar_mul_air::{
    add_block_holds, cells_wf, check_add_block, check_double_block, check_on_curve,
    double_block_holds, fill_add_intermediates, fill_double_intermediates, next_pow2,
    on_curve_holds, read_fp8, rv, sel_combine, sel_combine_exec, write_point,
};
use crate::signature_witness::SignatureWitness;

/// Public cells holding the public key.
pub const SCHNORR_BASE_PUBLIC: usize = 16;

/// Public cells holding the commitment `R`.
pub const SCHNORR_R_PUBLIC: usize = 16;

/// Total number of public cells.
pub const SCHNORR_PUBLIC_VALUES: usize = 32;

/// Column offset of the double-and-add block.
pub const GS_OFFSET: usize = 0;

/// Accumulator x-coordinate.
pub const DS_ACC_X_START: usize = 0;

/// Accumulator y-coordinate.
pub const DS_ACC_Y_START: usize = 8;

/// Public-key power x-coordinate.
pub const DS_PK_X_START: usize = 16;

/// Public-key power y-coordinate.
pub const DS_PK_Y_START: usize = 24;

/// Doubled public-key x-coordinate.
pub const DS_PK_DOUBLE_X_START: usize = 32;

/// Doubled public-key y-coordinate.
pub const DS_PK_DOUBLE_Y_START: usize = 40;

/// Doubling tangent numerator.
pub const DS_PK_DOUBLE_NUM_START: usize = 48;

/// Doubling tangent denominator.
pub const DS_PK_DOUBLE_DEN_START: usize = 56;

/// Doubling denominator inverse.
pub const DS_PK_DOUBLE_INV_START: usize = 64;

/// Doubling tangent slope.
pub const DS_PK_DOUBLE_SLOPE_START: usize = 72;

/// `P + G` x-coordinate.
pub const DS_SUM_X_START: usize = 80;

/// `P + G` y-coordinate.
pub const DS_SUM_Y_START: usize = 88;

/// Sum chord numerator.
pub const DS_SUM_NUM_START: usize = 96;

/// Sum chord denominator.
pub const DS_SUM_DEN_START: usize = 104;

/// Sum denominator inverse.
pub const DS_SUM_INV_START: usize = 112;

/// Sum chord slope.
pub const DS_SUM_SLOPE_START: usize = 120;

/// Selected addend x-coordinate.
pub const DS_ADDEND_X_START: usize = 128;

/// Selected addend y-coordinate.
pub const DS_ADDEND_Y_START: usize = 136;

/// New accumulator x-coordinate.
pub const DS_ADD_X_START: usize = 144;

/// New accumulator y-coordinate.
pub const DS_ADD_Y_START: usize = 152;

/// Accumulator chord numerator.
pub const DS_ADD_NUM_START: usize = 160;

/// Accumulator chord denominator.
pub const DS_ADD_DEN_START: usize = 168;

/// Accumulator denominator inverse.
pub const DS_ADD_INV_START: usize = 176;

/// Accumulator chord slope.
pub const DS_ADD_SLOPE_START: usize = 184;

/// The bit of `s` for the row.
pub const DS_S_BIT_COL: usize = 192;

/// The bit of `-e` for the row.
pub const DS_E_BIT_COL: usize = 193;

/// Whether the accumulator is still the identity.
pub const DS_ACC_INF_COL: usize = 194;

/// Total width of the main trace.
pub const SCHNORR_COLUMNS: usize = 195;

/// Preprocessed generator power x-coordinate.
pub const GS_PREP_BASE_X_START: usize = 0;

/// Preprocessed generator power y-coordinate.
pub const GS_PREP_BASE_Y_START: usize = 8;

/// Width of the preprocessed matrix.
pub const GS_PREP_COLS: usize = 16;

/// The four-way addend selection `(1-s)(1-e)*O + s(1-e)*G + (1-s)e*P + se*(P+G)`,
/// evaluated in the base field coefficient-wise.
pub open spec fn addend_combine(
    g: Seq<int>,
    pk: Seq<int>,
    sm: Seq<int>,
    s: int,
    e: int,
) -> Seq<int> {
    let p = FP as int;
    let s1 = (1 - s) % p;
    let e1 = (1 - e) % p;
    let sel00 = (s1 * e1) % p;
    let sel10 = (s * e1) % p;
    let sel01 = (s1 * e) % p;
    let sel11 = (s * e) % p;
    Seq::new(
        8,
        |k: int|
            (((((sel00 * 0) % p + (sel10 * g[k]) % p) % p + (sel01 * pk[k]) % p) % p + (sel11
                * sm[k]) % p) % p),
    )
}

/// Evaluate the addend selection on concrete field elements.
pub fn addend_combine_exec(g: &Fp8, pk: &Fp8, sm: &Fp8, s: u32, e: u32) -> (r: Fp8)
    requires
        fp8_wf(*g),
        fp8_wf(*pk),
        fp8_wf(*sm),
        s < FP,
        e < FP,
    ensures
        fp8_wf(r),
        v8(r) == addend_combine(v8(*g), v8(*pk), v8(*sm), s as int, e as int),
{
    let s1 = fp_sub(1, s);
    let e1 = fp_sub(1, e);
    let sel00 = fp_mul(s1, e1);
    let sel10 = fp_mul(s, e1);
    let sel01 = fp_mul(s1, e);
    let sel11 = fp_mul(s, e);
    let mut out: [u32; 8] = [0, 0, 0, 0, 0, 0, 0, 0];
    let mut k: usize = 0;
    while k < 8
        invariant
            k <= 8,
            fp8_wf(*g),
            fp8_wf(*pk),
            fp8_wf(*sm),
            s < FP,
            e < FP,
            sel00 == ((1 - s) % (FP as int) * ((1 - e) % (FP as int))) % (FP as int),
            sel10 == (s * ((1 - e) % (FP as int))) % (FP as int),
            sel01 == ((1 - s) % (FP as int) * e) % (FP as int),
            sel11 == (s * e) % (FP as int),
            sel00 < FP,
            sel10 < FP,
            sel01 < FP,
            sel11 < FP,
            forall|t: int|
                0 <= t < k ==> #[trigger] out[t] == addend_combine(
                    v8(*g),
                    v8(*pk),
                    v8(*sm),
                    s as int,
                    e as int,
                )[t],
            forall|t: int| 0 <= t < k ==> out[t] < FP,
        decreases 8 - k,
    {
        let t0 = fp_mul(sel00, 0);
        let t1 = fp_add(t0, fp_mul(sel10, g.c[k]));
        let t2 = fp_add(t1, fp_mul(sel01, pk.c[k]));
        let t3 = fp_add(t2, fp_mul(sel11, sm.c[k]));
        out[k] = t3;
        k += 1;
    }
    let r = Fp8::from_coeffs(out);
    proof {
        assert(v8(r) =~= addend_combine(v8(*g), v8(*pk), v8(*sm), s as int, e as int));
    }
    r
}

/// On boolean bits the four-way selection polynomial picks exactly one
/// addend: the identity's zeroed coordinates, the generator power, the
/// public-key power, or their sum.
pub proof fn lemma_addend_combine_selects(g: Seq<int>, pk: Seq<int>, sm: Seq<int>, s: int, e: int)
    requires
        g.len() == 8,
        pk.len() == 8,
        sm.len() == 8,
        forall|i: int| 0 <= i < 8 ==> 0 <= #[trigger] g[i] < FP,
        forall|i: int| 0 <= i < 8 ==> 0 <= #[trigger] pk[i] < FP,
        forall|i: int| 0 <= i < 8 ==> 0 <= #[trigger] sm[i] < FP,
        s == 0 || s == 1,
        e == 0 || e == 1,
    ensures
        s == 0 && e == 0 ==> addend_combine(g, pk, sm, s, e) == crate::basefield::fp8_zero_v(),
        s == 1 && e == 0 ==> addend_combine(g, pk, sm, s, e) == g,
        s == 0 && e == 1 ==> addend_combine(g, pk, sm, s, e) == pk,
        s == 1 && e == 1 ==> addend_combine(g, pk, sm, s, e) == sm,
{
    let p = FP as int;
    let picked: Seq<int> = if s == 0 && e == 0 {
        crate::basefield::fp8_zero_v()
    } else if s == 1 && e == 0 {
        g
    } else if s == 0 && e == 1 {
        pk
    } else {
        sm
    };
    assert forall|k: int| 0 <= k < 8 implies addend_combine(g, pk, sm, s, e)[k] == picked[k] by {
        vstd::arithmetic::div_mod::lemma_small_mod(0nat, FP as nat);
        vstd::arithmetic::div_mod::lemma_small_mod(1nat, FP as nat);
        assert(0 * g[k] == 0 && 0 * pk[k] == 0 && 0 * sm[k] == 0 && 1 * g[k] == g[k] && 1 * pk[k]
            == pk[k] && 1 * sm[k] == sm[k] && 0int * 0 == 0 && 1 * 0 == 0 && 0 * 1 == 0 && 1 * 1
            == 1) by (nonlinear_arith);
        vstd::arithmetic::div_mod::lemma_small_mod(g[k] as nat, FP as nat);
        vstd::arithmetic::div_mod::lemma_small_mod(pk[k] as nat, FP as nat);
        vstd::arithmetic::div_mod::lemma_small_mod(sm[k] as nat, FP as nat);
    }
    assert(addend_combine(g, pk, sm, s, e) =~= picked);
}

/// All per-row and transition constraints of the double-and-add block,
/// between a row, its successor, and the preprocessed row.
pub open spec fn ds_core_holds(
    row: Seq<u32>,
    next_row: Seq<u32>,
    prep_row: Seq<u32>,
    offset: int,
    is_transition: bool,
) -> bool {
    let p = FP as int;
    let s: int = row[offset + DS_S_BIT_COL] as int;
    let e: int = row[offset + DS_E_BIT_COL] as int;
    let inf: int = row[offset + DS_ACC_INF_COL] as int;
    let ainf = (((1 - s) % p) * ((1 - e) % p)) % p;
    let sel = (1 - ainf) % p;
    &&& (s == 0 || s == 1)
    &&& (e == 0 || e == 1)
    &&& (inf == 0 || inf == 1)
    &&& (is_transition ==> {
        let ninf: int = next_row[offset + DS_ACC_INF_COL] as int;
        &&& rv(next_row, offset + DS_ACC_X_START) == sel_combine(
            rv(row, offset + DS_ACC_X_START),
            rv(row, offset + DS_ADD_X_START),
            sel,
        )
        &&& rv(next_row, offset + DS_ACC_Y_START) == sel_combine(
            rv(row, offset + DS_ACC_Y_START),
            rv(row, offset + DS_ADD_Y_START),
            sel,
        )
        &&& rv(next_row, offset + DS_PK_X_START) == rv(row, offset + DS_PK_DOUBLE_X_START)
        &&& rv(next_row, offset + DS_PK_Y_START) == rv(row, offset + DS_PK_DOUBLE_Y_START)
        &&& (ninf == 0 || ninf == 1)
        &&& ninf == (inf * ainf) % p
    })
    &&& double_block_holds(
        rv(row, offset + DS_PK_X_START),
        rv(row, offset + DS_PK_Y_START),
        rv(row, offset + DS_PK_DOUBLE_NUM_START),
        rv(row, offset + DS_PK_DOUBLE_DEN_START),
        rv(row, offset + DS_PK_DOUBLE_INV_START),
        rv(row, offset + DS_PK_DOUBLE_SLOPE_START),
        rv(row, offset + DS_PK_DOUBLE_X_START),
        rv(row, offset + DS_PK_DOUBLE_Y_START),
    )
    &&& add_block_holds(
        rv(row, offset + DS_PK_X_START),
        rv(row, offset + DS_PK_Y_START),
        rv(prep_row, GS_PREP_BASE_X_START as int),
        rv(prep_row, GS_PREP_BASE_Y_START as int),
        rv(row, offset + DS_SUM_NUM_START),
        rv(row, offset + DS_SUM_DEN_START),
        rv(row, offset + DS_SUM_INV_START),
        rv(row, offset + DS_SUM_SLOPE_START),
        rv(row, offset + DS_SUM_X_START),
        rv(row, offset + DS_SUM_Y_START),
    )
    &&& rv(row, offset + DS_ADDEND_X_START) == addend_combine(
        rv(prep_row, GS_PREP_BASE_X_START as int),
        rv(row, offset + DS_PK_X_START),
        rv(row, offset + DS_SUM_X_START),
        s,
        e,
    )
    &&& rv(row, offset + DS_ADDEND_Y_START) == addend_combine(
        rv(prep_row, GS_PREP_BASE_Y_START as int),
        rv(row, offset + DS_PK_Y_START),
        rv(row, offset + DS_SUM_Y_START),
        s,
        e,
    )
    &&& (((1 - inf) % p * sel) % p != 0 ==> add_block_holds(
        rv(row, offset + DS_ACC_X_START),
        rv(row, offset + DS_ACC_Y_START),
        rv(row, offset + DS_ADDEND_X_START),
        rv(row, offset + DS_ADDEND_Y_START),
        rv(row, offset + DS_ADD_NUM_START),
        rv(row, offset + DS_ADD_DEN_START),
        rv(row, offset + DS_ADD_INV_START),
        rv(row, offset + DS_ADD_SLOPE_START),
        rv(row, offset + DS_ADD_X_START),
        rv(row, offset + DS_ADD_Y_START),
    ))
    &&& ((inf * sel) % p != 0 ==> rv(row, offset + DS_ADD_X_START) == rv(
        row,
        offset + DS_ADDEND_X_START,
    ) && rv(row, offset + DS_ADD_Y_START) == rv(row, offset + DS_ADDEND_Y_START))
    &&& (inf == 0 ==> on_curve_holds(
        rv(row, offset + DS_ACC_X_START),
        rv(row, offset + DS_ACC_Y_START),
    ))
    &&& (sel != 0 ==> on_curve_holds(
        rv(row, offset + DS_ADDEND_X_START),
        rv(row, offset + DS_ADDEND_Y_START),
    ))
    &&& on_curve_holds(rv(row, offset + DS_SUM_X_START), rv(row, offset + DS_SUM_Y_START))
    &&& on_curve_holds(rv(row, offset + DS_PK_X_START), rv(row, offset + DS_PK_Y_START))
    &&& on_curve_holds(
        rv(prep_row, GS_PREP_BASE_X_START as int),
        rv(prep_row, GS_PREP_BASE_Y_START as int),
    )
}

/// Evaluate the per-row and transition constraints of the double-and-add
/// block on one row, its successor, and the preprocessed row.
pub fn eval_double_scalar_core(
    row: &Vec<u32>,
    next_row: &Vec<u32>,
    preprocessed_row: &Vec<u32>,
    offset: usize,
    is_transition: bool,
) -> (r: bool)
    requires
        offset + SCHNORR_COLUMNS <= row@.len(),
        offset + SCHNORR_COLUMNS <= next_row@.len(),
        preprocessed_row@.len() >= GS_PREP_COLS,
        cells_wf(row@),
        cells_wf(next_row@),
        cells_wf(preprocessed_row@),
    ensures
        r <==> ds_core_holds(row@, next_row@, preprocessed_row@, offset as int, is_transition),
{
    let n1: usize = row.len();
    let n2: usize = next_row.len();
    let n3: usize = preprocessed_row.len();
    let s: u32 = row[offset + DS_S_BIT_COL];
    let e: u32 = row[offset + DS_E_BIT_COL];
    let inf: u32 = row[offset + DS_ACC_INF_COL];
    if !(s == 0 || s == 1) {
        return false;
    }
    if !(e == 0 || e == 1) {
        return false;
    }
    if !(inf == 0 || inf == 1) {
        return false;
    }
    let ainf: u32 = fp_mul(fp_sub(1, s), fp_sub(1, e));
    let sel: u32 = fp_sub(1, ainf);
    if is_transition {
        let ninf: u32 = next_row[offset + DS_ACC_INF_COL];
        let acc_x = read_fp8(row, offset + DS_ACC_X_START);
        let acc_y = read_fp8(row, offset + DS_ACC_Y_START);
        let add_x = read_fp8(row, offset + DS_ADD_X_START);
        let add_y = read_fp8(row, offset + DS_ADD_Y_START);
        let next_acc_x = read_fp8(next_row, offset + DS_ACC_X_START);
        let next_acc_y = read_fp8(next_row, offset + DS_ACC_Y_START);
        if !fp8_eq_v(&next_acc_x, &sel_combine_exec(&acc_x, &add_x, sel)) {
            return false;
        }
        if !fp8_eq_v(&next_acc_y, &sel_combine_exec(&acc_y, &add_y, sel)) {
            return false;
        }
        let next_pk_x = read_fp8(next_row, offset + DS_PK_X_START);
        let next_pk_y = read_fp8(next_row, offset + DS_PK_Y_START);
        let pk2_x = read_fp8(row, offset + DS_PK_DOUBLE_X_START);
        let pk2_y = read_fp8(row, offset + DS_PK_DOUBLE_Y_START);
        if !fp8_eq_v(&next_pk_x, &pk2_x) {
            return false;
        }
        if !fp8_eq_v(&next_pk_y, &pk2_y) {
            return false;
        }
        if !(ninf == 0 || ninf == 1) {
            return false;
        }
        if ninf != fp_mul(inf, ainf) {
            return false;
        }
    }
    let pk_x = read_fp8(row, offset + DS_PK_X_START);
    let pk_y = read_fp8(row, offset + DS_PK_Y_START);
    let ok_double = check_double_block(
        &pk_x,
        &pk_y,
        &read_fp8(row, offset + DS_PK_DOUBLE_NUM_START),
        &read_fp8(row, offset + DS_PK_DOUBLE_DEN_START),
        &read_fp8(row, offset + DS_PK_DOUBLE_INV_START),
        &read_fp8(row, offset + DS_PK_DOUBLE_SLOPE_START),
        &read_fp8(row, offset + DS_PK_DOUBLE_X_START),
        &read_fp8(row, offset + DS_PK_DOUBLE_Y_START),
    );
    if !ok_double {
        return false;
    }
    let g_x = read_fp8(preprocessed_row, GS_PREP_BASE_X_START);
    let g_y = read_fp8(preprocessed_row, GS_PREP_BASE_Y_START);
    let sum_x = read_fp8(row, offset + DS_SUM_X_START);
    let sum_y = read_fp8(row, offset + DS_SUM_Y_START);
    let ok_sum = check_add_block(
        &pk_x,
        &pk_y,
        &g_x,
        &g_y,
        &read_fp8(row, offset + DS_SUM_NUM_START),
        &read_fp8(row, offset + DS_SUM_DEN_START),
        &read_fp8(row, offset + DS_SUM_INV_START),
        &read_fp8(row, offset + DS_SUM_SLOPE_START),
        &sum_x,
        &sum_y,
    );
    if !ok_sum {
        return false;
    }
    let addend_x = read_fp8(row, offset + DS_ADDEND_X_START);
    let addend_y = read_fp8(row, offset + DS_ADDEND_Y_START);
    if !fp8_eq_v(&addend_x, &addend_combine_exec(&g_x, &pk_x, &sum_x, s, e)) {
        return false;
    }
    if !fp8_eq_v(&addend_y, &addend_combine_exec(&g_y, &pk_y, &sum_y, s, e)) {
        return false;
    }
    let guard_add: u32 = fp_mul(fp_sub(1, inf), sel);
    if guard_add != 0 {
        let ok_add = check_add_block(
            &read_fp8(row, offset + DS_ACC_X_START),
            &read_fp8(row, offset + DS_ACC_Y_START),
            &addend_x,
            &addend_y,
            &read_fp8(row, offset + DS_ADD_NUM_START),
            &read_fp8(row, offset + DS_ADD_DEN_START),
            &read_fp8(row, offset + DS_ADD_INV_START),
            &read_fp8(row, offset + DS_ADD_SLOPE_START),
            &read_fp8(row, offset + DS_ADD_X_START),
            &read_fp8(row, offset + DS_ADD_Y_START),
        );
        if !ok_add {
            return false;
        }
    }
    let guard_init: u32 = fp_mul(inf, sel);
    if guard_init != 0 {
        let add_x = read_fp8(row, offset + DS_ADD_X_START);
        let add_y = read_fp8(row, offset + DS_ADD_Y_START);
        if !fp8_eq_v(&add_x, &addend_x) {
            return false;
        }
        if !fp8_eq_v(&add_y, &addend_y) {
            return false;
        }
    }
    if inf == 0 {
        let acc_x = read_fp8(row, offset + DS_ACC_X_START);
        let acc_y = read_fp8(row, offset + DS_ACC_Y_START);
        if !check_on_curve(&acc_x, &acc_y) {
            return false;
        }
    }
    if sel != 0 {
        if !check_on_curve(&addend_x, &addend_y) {
            return false;
        }
    }
    if !check_on_curve(&sum_x, &sum_y) {
        return false;
    }
    if !check_on_curve(&pk_x, &pk_y) {
        return false;
    }
    if !check_on_curve(&g_x, &g_y) {
        return false;
    }
    true
}

/// A Schnorr verification witness trace, row-major.
#[derive(Clone, Debug)]
pub struct SchnorrTrace {
    /// The cells, row-major with `SCHNORR_COLUMNS` cells per row.
    pub trace: Vec<u32>,
}

/// The Schnorr AIR: its height is fixed at construction.
#[derive(Clone, Copy, Debug, PartialEq, Eq)]
pub struct SchnorrAir {
    /// The trace height, a power of two.
    pub num_rows: usize,
}

impl SchnorrAir {
    /// A new AIR instance of the given power-of-two height.
    pub fn new(num_rows: usize) -> (r: SchnorrAir)
        requires
            vstd::arithmetic::power2::is_pow2(num_rows as int),
        ensures
            r.num_rows == num_rows,
    {
        SchnorrAir { num_rows }
    }

    /// The main trace width.
    pub fn width(&self) -> (r: usize)
        ensures
            r == SCHNORR_COLUMNS,
    {
        SCHNORR_COLUMNS
    }

    /// The number of public cells: the public key and `R`.
    pub fn num_public_values(&self) -> (r: usize)
        ensures
            r == SCHNORR_PUBLIC_VALUES,
    {
        SCHNORR_PUBLIC_VALUES
    }

    /// The preprocessed generator-doubling matrix for this height.
    pub fn preprocessed_trace(&self) -> (r: Vec<u32>)
        requires
            self.num_rows <= 0x2000000,
        ensures
            r@.len() == self.num_rows * GS_PREP_COLS,
            cells_wf(r@),
            forall|i: int| 0 <= i < self.num_rows ==> #[trigger] prep_row_ok(r@, i),
    {
        build_gs_preprocessed_trace(self.num_rows)
    }
}

/// Write the generator power of a preprocessed row.
pub fn write_preprocessed_point(row: &mut Vec<u32>, start: usize, point: &CircuitPoint)
    requires
        start + 16 <= old(row)@.len(),
        cp_wf(*point),
    ensures
        final(row)@.len() == old(row)@.len(),
        forall|i: int| 0 <= i < 8 ==> final(row)@[start + i] == point.x[i],
        forall|i: int| 0 <= i < 8 ==> final(row)@[start + 8 + i] == point.y[i],
        forall|i: int| start <= i < start + 16 ==> final(row)@[i] < FP,
        forall|i: int|
            0 <= i < final(row)@.len() && !(start <= i < start + 16) ==> final(row)@[i] == old(
                row,
            )@[i],
{
    write_point(row, start, point);
}

/// Row `r` of a preprocessed matrix holds the coordinates of `2^r * G`.
#[verifier::opaque]
pub open spec fn prep_row_ok(t: Seq<u32>, r: int) -> bool {
    rv(t, r * 16) == crate::msm::double_n_v(generator_v(), r).x && rv(t, r * 16 + 8)
        == crate::msm::double_n_v(generator_v(), r).y
}

/// What a preprocessed row holds: the coordinates of the `r`-th repeated
/// doubling of the fixed generator.
pub proof fn lemma_prep_row_meaning(t: Seq<u32>, r: int)
    requires
        prep_row_ok(t, r),
    ensures
        rv(t, r * 16) == crate::msm::double_n_v(generator_v(), r).x,
        rv(t, r * 16 + 8) == crate::msm::double_n_v(generator_v(), r).y,
{
    reveal(prep_row_ok);
}

/// Doubling preserves well-formed coordinates.
proof fn lemma_double_v_wf(p: PointV)
    requires
        crate::affine::pointv_wf(p),
    ensures
        crate::affine::pointv_wf(crate::affine::double_v(p)),
{
    let dv = crate::affine::double_v(p);
    if !p.inf && p.y != crate::basefield::fp8_zero_v() {
        assert forall|i: int| 0 <= i < 8 implies 0 <= #[trigger] dv.x[i] < FP && 0 <= dv.y[i]
            < FP by {
            vstd::arithmetic::div_mod::lemma_mod_division_less_than_divisor(0int, FP as int);
        }
    }
}

/// Every repeated doubling of the generator has well-formed coordinates.
proof fn lemma_double_n_wf(p: PointV, n: int)
    requires
        crate::affine::pointv_wf(p),
        n >= 0,
    ensures
        crate::affine::pointv_wf(crate::msm::double_n_v(p, n)),
    decreases n,
{
    if n > 0 {
        lemma_double_n_wf(p, n - 1);
        lemma_double_v_wf(crate::msm::double_n_v(p, n - 1));
    }
}

/// A row of the built preprocessed matrix is exactly the generator-power
/// row that the constraint statement reads.
pub proof fn lemma_preprocessed_row_matches(t: Seq<u32>, q: int)
    requires
        q >= 0,
        (q + 1) * (GS_PREP_COLS as int) <= t.len(),
        prep_row_ok(t, q),
    ensures
        t.subrange(q * (GS_PREP_COLS as int), q * (GS_PREP_COLS as int) + (GS_PREP_COLS as int))
            == point_prep_row(crate::msm::double_n_v(generator_v(), q)),
{
    reveal(prep_row_ok);
    let g = crate::msm::double_n_v(generator_v(), q);
    assert(crate::affine::pointv_wf(generator_v())) by {
        assert(forall|i: int| 0 <= i < 8 ==> 0 <= #[trigger] generator_v().x[i] < FP);
        assert(forall|i: int| 0 <= i < 8 ==> 0 <= #[trigger] generator_v().y[i] < FP);
    }
    lemma_double_n_wf(generator_v(), q);
    vstd::arithmetic::mul::lemma_mul_is_distributive_add_other_way(GS_PREP_COLS as int, q, 1);
    vstd::arithmetic::mul::lemma_mul_nonnegative(q, GS_PREP_COLS as int);
    let row = t.subrange(
        q * (GS_PREP_COLS as int),
        q * (GS_PREP_COLS as int) + (GS_PREP_COLS as int),
    );
    assert forall|i: int| 0 <= i < 16 implies row[i] == point_prep_row(g)[i] by {
        if i < 8 {
            assert(rv(t, q * 16)[i] == t[q * 16 + i]);
            assert(t[q * 16 + i] as int == g.x[i]);
        } else {
            assert(rv(t, q * 16 + 8)[i - 8] == t[q * 16 + i]);
            assert(t[q * 16 + i] as int == g.y[i - 8]);
        }
    }
    assert(row =~= point_prep_row(g));
}

/// Build the preprocessed matrix: row `i` holds the coordinates of
/// `2^i * G`, produced by repeated doubling of the fixed generator.
#[verifier::rlimit(100)]
pub fn build_gs_preprocessed_trace(num_rows: usize) -> (r: Vec<u32>)
    requires
        num_rows <= 0x2000000,
    ensures
        r@.len() == num_rows * GS_PREP_COLS,
        cells_wf(r@),
        forall|i: int| 0 <= i < num_rows ==> #[trigger] prep_row_ok(r@, i),
{
    let mut trace: Vec<u32> = Vec::new();
    let mut current = CircuitPoint::from_affine(&Affine::generator());
    let mut i: usize = 0;
    proof {
        assert(crate::msm::double_n_v(generator_v(), 0) == generator_v());
    }
    while i < num_rows
        invariant
            i <= num_rows,
            num_rows <= 0x2000000,
            cp_wf(current),
            cpv(current) == crate::msm::double_n_v(generator_v(), i as int),
            trace@.len() == i * 16,
            cells_wf(trace@),
            forall|t: int| 0 <= t < i ==> #[trigger] prep_row_ok(trace@, t),
        decreases num_rows - i,
    {
        let mut row: Vec<u32> = Vec::new();
        let mut z: usize = 0;
        while z < GS_PREP_COLS
            invariant
                z <= GS_PREP_COLS,
                row@.len() == z,
                forall|t: int| 0 <= t < z ==> row@[t] == 0,
            decreases GS_PREP_COLS - z,
        {
            row.push(0);
            z += 1;
        }
        write_preprocessed_point(&mut row, GS_PREP_BASE_X_START, &current);
        let ghost old_trace = trace@;
        let ghost row_snap = row@;
        trace.append(&mut row);
        proof {
            assert(trace@ == old_trace + row_snap);
            assert forall|t: int| 0 <= t < i + 1 implies #[trigger] prep_row_ok(trace@, t) by {
                reveal(prep_row_ok);
                if t < i {
                    assert(prep_row_ok(old_trace, t));
                    assert(rv(trace@, t * 16) =~= rv(old_trace, t * 16));
                    assert(rv(trace@, t * 16 + 8) =~= rv(old_trace, t * 16 + 8));
                } else {
                    assert(rv(trace@, t * 16) =~= cpv(current).x);
                    assert(rv(trace@, t * 16 + 8) =~= cpv(current).y);
                }
            }
            assert(cells_wf(trace@)) by {
                assert forall|t: int| 0 <= t < trace@.len() implies trace@[t] < FP by {
                    if t < old_trace.len() {
                        assert(trace@[t] == old_trace[t]);
                    } else {
                        assert(trace@[t] == row_snap[t - old_trace.len()]);
                    }
                }
            }
            assert(crate::msm::double_n_v(generator_v(), i as int + 1) == crate::affine::double_v(
                crate::msm::double_n_v(generator_v(), i as int),
            ));
        }
        current = current.double();
        i += 1;
        proof {
            assert((i - 1) * 16 + 16 == i * 16) by (nonlinear_arith);
        }
    }
    trace
}

/// The addend a row selects: the identity, the generator power, the
/// public-key power, or their sum.
pub open spec fn ds_addend_v(pk: PointV, g: PointV, s: bool, e: bool) -> PointV {
    if !s && !e {
        crate::affine::infinity_v()
    } else if s && !e {
        g
    } else if !s && e {
        pk
    } else {
        crate::affine::add_v(pk, g)
    }
}

/// The accumulator after a row: an identity operand is absorbed, otherwise
/// the chord-and-tangent sum is taken.
pub open spec fn ds_next_acc_v(acc: PointV, addend: PointV) -> PointV {
    if acc.inf {
        if addend.inf {
            acc
        } else {
            addend
        }
    } else if addend.inf {
        acc
    } else {
        crate::affine::add_v(acc, addend)
    }
}

/// Whether one row of the double-and-add schedule can be witnessed: the
/// running points are finite and on the curve, the tangent and chord
/// denominators the row stores have Fermat inverses that really invert,
/// and the points the row produces are on the curve.
#[verifier::opaque]
pub open spec fn ds_row_feasible(acc: PointV, pk: PointV, g: PointV, s: bool, e: bool) -> bool {
    let sum = crate::affine::add_v(pk, g);
    let addend = ds_addend_v(pk, g, s, e);
    &&& !pk.inf
    &&& !g.inf
    &&& crate::affine::on_curve_v(pk)
    &&& crate::affine::on_curve_v(g)
    &&& mulv(mulsv(pk.y, 2), crate::basefield::fp8_inverse_v(mulsv(pk.y, 2))) == fp8_one_v()
    &&& mulv(subv(g.x, pk.x), crate::basefield::fp8_inverse_v(subv(g.x, pk.x))) == fp8_one_v()
    &&& crate::affine::on_curve_v(sum)
    &&& (!acc.inf ==> crate::affine::on_curve_v(acc))
    &&& (!acc.inf && !addend.inf ==> mulv(
        subv(addend.x, acc.x),
        crate::basefield::fp8_inverse_v(subv(addend.x, acc.x)),
    ) == fp8_one_v() && crate::affine::on_curve_v(crate::affine::add_v(acc, addend)))
}

/// Whether rows `i` up to `n` of the schedule can all be witnessed,
/// starting from the given running points; bit positions beyond the inputs
/// are clear.
pub open spec fn ds_build_ok(
    acc: PointV,
    pk: PointV,
    g: PointV,
    s_bits: Seq<bool>,
    e_bits: Seq<bool>,
    i: int,
    n: int,
) -> bool
    decreases n - i,
{
    if i >= n {
        true
    } else {
        let s = i < s_bits.len() && s_bits[i];
        let e = i < e_bits.len() && e_bits[i];
        ds_row_feasible(acc, pk, g, s, e) && ds_build_ok(
            ds_next_acc_v(acc, ds_addend_v(pk, g, s, e)),
            crate::affine::double_v(pk),
            crate::affine::double_v(g),
            s_bits,
            e_bits,
            i + 1,
            n,
        )
    }
}

/// The accumulator entering row `q` of the schedule: the identity at the
/// start, then folded through the selected addends.
pub open spec fn ds_acc_at(pk: PointV, g: PointV, s_bits: Seq<bool>, e_bits: Seq<bool>, q: int) -> PointV
    decreases q,
{
    if q <= 0 {
        crate::affine::infinity_v()
    } else {
        let s = q - 1 < s_bits.len() && s_bits[q - 1];
        let e = q - 1 < e_bits.len() && e_bits[q - 1];
        ds_next_acc_v(
            ds_acc_at(pk, g, s_bits, e_bits, q - 1),
            ds_addend_v(
                crate::msm::double_n_v(pk, q - 1),
                crate::msm::double_n_v(g, q - 1),
                s,
                e,
            ),
        )
    }
}

/// Row `q` of a main trace carries the scheduled running points: the
/// accumulator of the fold with its infinity flag, and the `q`-fold
/// doubling of the public key.
#[verifier::opaque]
pub open spec fn ds_point_cells_ok(
    t: Seq<u32>,
    q: int,
    pk: PointV,
    s_bits: Seq<bool>,
    e_bits: Seq<bool>,
) -> bool {
    let row = row_of(t, q, SCHNORR_COLUMNS as int);
    let accq = ds_acc_at(pk, generator_v(), s_bits, e_bits, q);
    let accn = ds_acc_at(pk, generator_v(), s_bits, e_bits, q + 1);
    let sq = q < s_bits.len() && s_bits[q];
    let eq = q < e_bits.len() && e_bits[q];
    &&& rv(row, DS_ACC_X_START as int) == accq.x
    &&& rv(row, DS_ACC_Y_START as int) == accq.y
    &&& row[DS_ACC_INF_COL as int] == (if accq.inf {
        1u32
    } else {
        0u32
    })
    &&& rv(row, DS_PK_X_START as int) == crate::msm::double_n_v(pk, q).x
    &&& rv(row, DS_PK_Y_START as int) == crate::msm::double_n_v(pk, q).y
    &&& rv(row, DS_ADD_X_START as int) == accn.x
    &&& rv(row, DS_ADD_Y_START as int) == accn.y
    &&& rv(row, DS_PK_DOUBLE_X_START as int) == crate::msm::double_n_v(pk, q + 1).x
    &&& rv(row, DS_PK_DOUBLE_Y_START as int) == crate::msm::double_n_v(pk, q + 1).y
    &&& accn.inf == (accq.inf && !sq && !eq)
}

/// Row `q` of a main trace satisfies every per-row constraint against the
/// generator-power row.
#[verifier::opaque]
pub open spec fn ds_row_sat(t: Seq<u32>, q: int) -> bool {
    ds_core_holds(
        row_of(t, q, SCHNORR_COLUMNS as int),
        row_of(t, q, SCHNORR_COLUMNS as int),
        point_prep_row(crate::msm::double_n_v(generator_v(), q)),
        0,
        false,
    )
}

/// Row `q` of a main trace of height `h` satisfies every constraint of the
/// AIR — the per-row blocks and, below the last row, the transition to its
/// successor — against the row holding `2^q` times the generator.
#[verifier::opaque]
pub open spec fn ds_row_constrained(t: Seq<u32>, q: int, h: int) -> bool {
    ds_core_holds(
        row_of(t, q, SCHNORR_COLUMNS as int),
        row_of(
            t,
            if q + 1 < h {
                q + 1
            } else {
                q
            },
            SCHNORR_COLUMNS as int,
        ),
        point_prep_row(crate::msm::double_n_v(generator_v(), q)),
        0,
        q + 1 < h,
    )
}

/// What a constrained row means, spelled out.
pub proof fn lemma_ds_row_constrained_meaning(t: Seq<u32>, q: int, h: int)
    requires
        ds_row_constrained(t, q, h),
    ensures
        ds_core_holds(
            row_of(t, q, SCHNORR_COLUMNS as int),
            row_of(
                t,
                if q + 1 < h {
                    q + 1
                } else {
                    q
                },
                SCHNORR_COLUMNS as int,
            ),
            point_prep_row(crate::msm::double_n_v(generator_v(), q)),
            0,
            q + 1 < h,
        ),
{
    reveal(ds_row_constrained);
}

/// Below the last row, the recorded running points and bits of two
/// consecutive rows satisfy the transition constraints between them.
#[verifier::rlimit(100)]
#[verifier::spinoff_prover]
proof fn lemma_ds_pair(t: Seq<u32>, q: int, h: int, pk: PointV, s_bits: Seq<bool>, e_bits: Seq<bool>)
    requires
        t.len() == h * (SCHNORR_COLUMNS as int),
        0 <= q,
        q + 1 < h,
        cells_wf(t),
        ds_row_sat(t, q),
        ds_point_cells_ok(t, q, pk, s_bits, e_bits),
        ds_point_cells_ok(t, q + 1, pk, s_bits, e_bits),
        ds_bit_cells_ok(t, q, s_bits, e_bits),
    ensures
        ds_core_holds(
            row_of(t, q, SCHNORR_COLUMNS as int),
            row_of(t, q + 1, SCHNORR_COLUMNS as int),
            point_prep_row(crate::msm::double_n_v(generator_v(), q)),
            0,
            true,
        ),
{
    reveal(ds_row_sat);
    reveal(ds_point_cells_ok);
    reveal(ds_bit_cells_ok);
    let cw = SCHNORR_COLUMNS as int;
    let p = FP as int;
    proof_bounds(t, q, h);
    let row = row_of(t, q, cw);
    let nxt = row_of(t, q + 1, cw);
    let sq = q < s_bits.len() && s_bits[q];
    let eq = q < e_bits.len() && e_bits[q];
    let si: int = row[DS_S_BIT_COL as int] as int;
    let ei: int = row[DS_E_BIT_COL as int] as int;
    let inf: int = row[DS_ACC_INF_COL as int] as int;
    let ainf = (((1 - si) % p) * ((1 - ei) % p)) % p;
    let sel = (1 - ainf) % p;
    vstd::arithmetic::div_mod::lemma_small_mod(0nat, FP as nat);
    vstd::arithmetic::div_mod::lemma_small_mod(1nat, FP as nat);
    assert(0int * 0 == 0 && 0 * 1 == 0 && 1 * 0 == 0 && 1int * 1 == 1) by (nonlinear_arith);
    assert(ainf == (if !sq && !eq {
        1int
    } else {
        0int
    }));
    assert(sel == (if !sq && !eq {
        0int
    } else {
        1int
    }));
    let accq = ds_acc_at(pk, generator_v(), s_bits, e_bits, q);
    let accn = ds_acc_at(pk, generator_v(), s_bits, e_bits, q + 1);
    assert forall|i: int|
        0 <= i < 8 implies 0 <= #[trigger] rv(row, DS_ACC_X_START as int)[i] < FP && 0 <= rv(
        row,
        DS_ACC_Y_START as int,
    )[i] < FP && 0 <= rv(row, DS_ADD_X_START as int)[i] < FP && 0 <= rv(
        row,
        DS_ADD_Y_START as int,
    )[i] < FP by {
        assert(row[DS_ACC_X_START + i] == t[q * cw + DS_ACC_X_START + i]);
        assert(row[DS_ACC_Y_START + i] == t[q * cw + DS_ACC_Y_START + i]);
        assert(row[DS_ADD_X_START + i] == t[q * cw + DS_ADD_X_START + i]);
        assert(row[DS_ADD_Y_START + i] == t[q * cw + DS_ADD_Y_START + i]);
    }
    crate::scalar_mul_air::lemma_sel_combine_selects(
        rv(row, DS_ACC_X_START as int),
        rv(row, DS_ADD_X_START as int),
        sel,
    );
    crate::scalar_mul_air::lemma_sel_combine_selects(
        rv(row, DS_ACC_Y_START as int),
        rv(row, DS_ADD_Y_START as int),
        sel,
    );
    if !sq && !eq {
        // the addend is the identity: the accumulator is unchanged
        assert(accn == accq);
        assert(rv(nxt, DS_ACC_X_START as int) == rv(row, DS_ACC_X_START as int));
        assert(rv(nxt, DS_ACC_Y_START as int) == rv(row, DS_ACC_Y_START as int));
    } else {
        assert(rv(nxt, DS_ACC_X_START as int) == rv(row, DS_ADD_X_START as int));
        assert(rv(nxt, DS_ACC_Y_START as int) == rv(row, DS_ADD_Y_START as int));
    }
    assert(rv(nxt, DS_PK_X_START as int) == rv(row, DS_PK_DOUBLE_X_START as int));
    assert(rv(nxt, DS_PK_Y_START as int) == rv(row, DS_PK_DOUBLE_Y_START as int));
    // the infinity flag evolves with the selector
    let ninf: int = nxt[DS_ACC_INF_COL as int] as int;
    assert(ninf == (if accn.inf {
        1int
    } else {
        0int
    }));
    if !sq && !eq {
        assert(accn.inf == accq.inf);
        assert((inf * ainf) % p == inf);
    } else {
        assert(!accn.inf);
        assert((inf * ainf) % p == 0) by {
            assert(inf * 0 == 0) by (nonlinear_arith);
        }
    }
    assert(ds_core_holds(
        row,
        nxt,
        point_prep_row(crate::msm::double_n_v(generator_v(), q)),
        0,
        true,
    ));
}

/// The two rows read by a transition lie inside the trace.
proof fn proof_bounds(t: Seq<u32>, q: int, h: int)
    requires
        t.len() == h * (SCHNORR_COLUMNS as int),
        0 <= q,
        q + 1 < h,
    ensures
        (q + 1) * (SCHNORR_COLUMNS as int) <= t.len(),
        (q + 2) * (SCHNORR_COLUMNS as int) <= t.len(),
        q * (SCHNORR_COLUMNS as int) + (SCHNORR_COLUMNS as int) == (q + 1) * (
        SCHNORR_COLUMNS as int),
        (q + 1) * (SCHNORR_COLUMNS as int) + (SCHNORR_COLUMNS as int) == (q + 2) * (
        SCHNORR_COLUMNS as int),
{
    vstd::arithmetic::mul::lemma_mul_inequality(q + 1, h, SCHNORR_COLUMNS as int);
    vstd::arithmetic::mul::lemma_mul_inequality(q + 2, h, SCHNORR_COLUMNS as int);
    vstd::arithmetic::mul::lemma_mul_is_distributive_add_other_way(SCHNORR_COLUMNS as int, q, 1);
    vstd::arithmetic::mul::lemma_mul_is_distributive_add_other_way(
        SCHNORR_COLUMNS as int,
        q + 1,
        1,
    );
}

/// Row `q` of a main trace carries the scheduled bits in its bit columns.
#[verifier::opaque]
pub open spec fn ds_bit_cells_ok(t: Seq<u32>, q: int, s_bits: Seq<bool>, e_bits: Seq<bool>) -> bool {
    &&& row_of(t, q, SCHNORR_COLUMNS as int)[DS_S_BIT_COL as int] == (
    if q < s_bits.len() && s_bits[q] {
        1u32
    } else {
        0u32
    })
    &&& row_of(t, q, SCHNORR_COLUMNS as int)[DS_E_BIT_COL as int] == (
    if q < e_bits.len() && e_bits[q] {
        1u32
    } else {
        0u32
    })
}

/// The first row of a main trace holds the public key and the identity
/// accumulator: zeroed coordinates with the infinity flag set.
#[verifier::opaque]
pub open spec fn ds_first_row_ok(t: Seq<u32>, pk: PointV) -> bool {
    &&& rv(row_of(t, 0, SCHNORR_COLUMNS as int), DS_PK_X_START as int) == pk.x
    &&& rv(row_of(t, 0, SCHNORR_COLUMNS as int), DS_PK_Y_START as int) == pk.y
    &&& rv(row_of(t, 0, SCHNORR_COLUMNS as int), DS_ACC_X_START as int)
        == crate::basefield::fp8_zero_v()
    &&& rv(row_of(t, 0, SCHNORR_COLUMNS as int), DS_ACC_Y_START as int)
        == crate::basefield::fp8_zero_v()
    &&& row_of(t, 0, SCHNORR_COLUMNS as int)[DS_ACC_INF_COL as int] == 1
}

/// Appending a row whose cells carry the scheduled points and bits
/// extends every per-row fact of the trace by one row.
proof fn lemma_ds_append_row(
    old_trace: Seq<u32>,
    row_snap: Seq<u32>,
    t: Seq<u32>,
    i: int,
    pk: PointV,
    s_bits: Seq<bool>,
    e_bits: Seq<bool>,
    accq: PointV,
    pkq: PointV,
    s: bool,
    e: bool,
)
    requires
        t == old_trace + row_snap,
        old_trace.len() == i * (SCHNORR_COLUMNS as int),
        row_snap.len() == SCHNORR_COLUMNS as int,
        i >= 0,
        cells_wf(old_trace),
        forall|j: int| 0 <= j < row_snap.len() ==> row_snap[j] < FP,
        forall|q: int| 0 <= q < i ==> #[trigger] ds_bit_cells_ok(old_trace, q, s_bits, e_bits),
        forall|q: int| 0 <= q < i ==> #[trigger] ds_point_cells_ok(old_trace, q, pk, s_bits, e_bits),
        forall|q: int| 0 <= q < i ==> #[trigger] ds_row_sat(old_trace, q),
        ds_core_holds(
            row_snap,
            row_snap,
            point_prep_row(crate::msm::double_n_v(generator_v(), i)),
            0,
            false,
        ),
        i > 0 ==> ds_first_row_ok(old_trace, pk),
        accq == ds_acc_at(pk, generator_v(), s_bits, e_bits, i),
        pkq == crate::msm::double_n_v(pk, i),
        rv(row_snap, DS_ADD_X_START as int) == ds_acc_at(pk, generator_v(), s_bits, e_bits, i + 1).x,
        rv(row_snap, DS_ADD_Y_START as int) == ds_acc_at(pk, generator_v(), s_bits, e_bits, i + 1).y,
        rv(row_snap, DS_PK_DOUBLE_X_START as int) == crate::msm::double_n_v(pk, i + 1).x,
        rv(row_snap, DS_PK_DOUBLE_Y_START as int) == crate::msm::double_n_v(pk, i + 1).y,
        ds_acc_at(pk, generator_v(), s_bits, e_bits, i + 1).inf == (accq.inf && !s && !e),
        rv(row_snap, DS_ACC_X_START as int) == accq.x,
        rv(row_snap, DS_ACC_Y_START as int) == accq.y,
        row_snap[DS_ACC_INF_COL as int] == (if accq.inf {
            1u32
        } else {
            0u32
        }),
        rv(row_snap, DS_PK_X_START as int) == pkq.x,
        rv(row_snap, DS_PK_Y_START as int) == pkq.y,
        row_snap[DS_S_BIT_COL as int] == (if s {
            1u32
        } else {
            0u32
        }),
        row_snap[DS_E_BIT_COL as int] == (if e {
            1u32
        } else {
            0u32
        }),
        s == (i < s_bits.len() && s_bits[i]),
        e == (i < e_bits.len() && e_bits[i]),
    ensures
        cells_wf(t),
        forall|q: int| 0 <= q < i + 1 ==> #[trigger] ds_bit_cells_ok(t, q, s_bits, e_bits),
        forall|q: int| 0 <= q < i + 1 ==> #[trigger] ds_point_cells_ok(t, q, pk, s_bits, e_bits),
        forall|q: int| 0 <= q < i + 1 ==> #[trigger] ds_row_sat(t, q),
        ds_first_row_ok(t, pk),
{
    assert(cells_wf(t)) by {
        assert forall|j: int| 0 <= j < t.len() implies t[j] < FP by {
            if j < old_trace.len() {
                assert(t[j] == old_trace[j]);
            } else {
                assert(t[j] == row_snap[j - old_trace.len()]);
            }
        }
    }
    assert forall|q: int| 0 <= q < i + 1 implies #[trigger] ds_row_sat(t, q) by {
        reveal(ds_row_sat);
        if q < i {
            assert(ds_row_sat(old_trace, q));
            assert(row_of(t, q, SCHNORR_COLUMNS as int) =~= row_of(
                old_trace,
                q,
                SCHNORR_COLUMNS as int,
            ));
        } else {
            assert(row_of(t, q, SCHNORR_COLUMNS as int) =~= row_snap);
        }
    }
    assert forall|q: int| 0 <= q < i + 1 implies #[trigger] ds_point_cells_ok(t, q, pk, s_bits, e_bits) by {
        reveal(ds_point_cells_ok);
        if q < i {
            assert(ds_point_cells_ok(old_trace, q, pk, s_bits, e_bits));
            assert(row_of(t, q, SCHNORR_COLUMNS as int) =~= row_of(
                old_trace,
                q,
                SCHNORR_COLUMNS as int,
            ));
        } else {
            assert(row_of(t, q, SCHNORR_COLUMNS as int) =~= row_snap);
        }
    }
    assert forall|q: int| 0 <= q < i + 1 implies #[trigger] ds_bit_cells_ok(t, q, s_bits, e_bits) by {
        reveal(ds_bit_cells_ok);
        if q < i {
            assert(ds_bit_cells_ok(old_trace, q, s_bits, e_bits));
            assert(row_of(t, q, SCHNORR_COLUMNS as int) =~= row_of(
                old_trace,
                q,
                SCHNORR_COLUMNS as int,
            ));
        } else {
            assert(row_of(t, q, SCHNORR_COLUMNS as int) =~= row_snap);
        }
    }
    if i == 0 {
        assert(ds_first_row_ok(t, pk)) by {
            reveal(ds_first_row_ok);
            assert(row_of(t, 0, SCHNORR_COLUMNS as int) =~= row_snap);
            assert(accq == crate::affine::infinity_v());
            assert(pkq == pk);
        }
    } else {
        assert(ds_first_row_ok(t, pk)) by {
            reveal(ds_first_row_ok);
            assert(ds_first_row_ok(old_trace, pk));
            assert(row_of(t, 0, SCHNORR_COLUMNS as int) =~= row_of(
                old_trace,
                0,
                SCHNORR_COLUMNS as int,
            ));
        }
    }
}

/// A sequence of u32 cells holding the coordinates of a model point, in
/// the preprocessed-row layout.
pub open spec fn point_prep_row(p: PointV) -> Seq<u32> {
    Seq::new(
        16,
        |i: int|
            if i < 8 {
                p.x[i] as u32
            } else {
                p.y[i - 8] as u32
            },
    )
}

/// A row whose cells hold the scheduled points, bits and intermediates of
/// one feasible double-and-add step satisfies every per-row constraint of
/// the AIR against the generator-power row.
#[verifier::rlimit(100)]
#[verifier::spinoff_prover]
proof fn lemma_ds_row_core(
    rw: Seq<u32>,
    prep: Seq<u32>,
    acc: PointV,
    pk: PointV,
    g: PointV,
    s: bool,
    e: bool,
)
    requires
        rw.len() == SCHNORR_COLUMNS,
        prep.len() == GS_PREP_COLS,
        crate::affine::pointv_wf(acc),
        crate::affine::pointv_wf(pk),
        crate::affine::pointv_wf(g),
        rv(rw, DS_ACC_X_START as int) == acc.x,
        rv(rw, DS_ACC_Y_START as int) == acc.y,
        rw[DS_ACC_INF_COL as int] == (if acc.inf {
            1u32
        } else {
            0u32
        }),
        rv(rw, DS_PK_X_START as int) == pk.x,
        rv(rw, DS_PK_Y_START as int) == pk.y,
        rv(prep, GS_PREP_BASE_X_START as int) == g.x,
        rv(prep, GS_PREP_BASE_Y_START as int) == g.y,
        rw[DS_S_BIT_COL as int] == (if s {
            1u32
        } else {
            0u32
        }),
        rw[DS_E_BIT_COL as int] == (if e {
            1u32
        } else {
            0u32
        }),
        rv(rw, DS_PK_DOUBLE_X_START as int) == crate::affine::double_v(pk).x,
        rv(rw, DS_PK_DOUBLE_Y_START as int) == crate::affine::double_v(pk).y,
        rv(rw, DS_PK_DOUBLE_NUM_START as int) == addv(
            mulsv(mulv(pk.x, pk.x), 3),
            crate::affine::curve_a_v(),
        ),
        rv(rw, DS_PK_DOUBLE_DEN_START as int) == mulsv(pk.y, 2),
        rv(rw, DS_PK_DOUBLE_INV_START as int) == crate::basefield::fp8_inverse_v(mulsv(pk.y, 2)),
        rv(rw, DS_PK_DOUBLE_SLOPE_START as int) == mulv(
            addv(mulsv(mulv(pk.x, pk.x), 3), crate::affine::curve_a_v()),
            crate::basefield::fp8_inverse_v(mulsv(pk.y, 2)),
        ),
        mulv(mulsv(pk.y, 2), crate::basefield::fp8_inverse_v(mulsv(pk.y, 2))) == fp8_one_v(),
        rv(rw, DS_SUM_X_START as int) == crate::affine::add_v(pk, g).x,
        rv(rw, DS_SUM_Y_START as int) == crate::affine::add_v(pk, g).y,
        rv(rw, DS_SUM_NUM_START as int) == subv(g.y, pk.y),
        rv(rw, DS_SUM_DEN_START as int) == subv(g.x, pk.x),
        rv(rw, DS_SUM_INV_START as int) == crate::basefield::fp8_inverse_v(subv(g.x, pk.x)),
        rv(rw, DS_SUM_SLOPE_START as int) == mulv(
            subv(g.y, pk.y),
            crate::basefield::fp8_inverse_v(subv(g.x, pk.x)),
        ),
        mulv(subv(g.x, pk.x), crate::basefield::fp8_inverse_v(subv(g.x, pk.x))) == fp8_one_v(),
        !pk.inf,
        !g.inf,
        crate::affine::on_curve_v(pk),
        crate::affine::on_curve_v(g),
        crate::affine::on_curve_v(crate::affine::add_v(pk, g)),
        !acc.inf ==> crate::affine::on_curve_v(acc),
        rv(rw, DS_ADDEND_X_START as int) == ds_addend_v(pk, g, s, e).x,
        rv(rw, DS_ADDEND_Y_START as int) == ds_addend_v(pk, g, s, e).y,
        (!acc.inf && !ds_addend_v(pk, g, s, e).inf) ==> {
            let ad = ds_addend_v(pk, g, s, e);
            &&& rv(rw, DS_ADD_X_START as int) == crate::affine::add_v(acc, ad).x
            &&& rv(rw, DS_ADD_Y_START as int) == crate::affine::add_v(acc, ad).y
            &&& rv(rw, DS_ADD_NUM_START as int) == subv(ad.y, acc.y)
            &&& rv(rw, DS_ADD_DEN_START as int) == subv(ad.x, acc.x)
            &&& rv(rw, DS_ADD_INV_START as int) == crate::basefield::fp8_inverse_v(
                subv(ad.x, acc.x),
            )
            &&& rv(rw, DS_ADD_SLOPE_START as int) == mulv(
                subv(ad.y, acc.y),
                crate::basefield::fp8_inverse_v(subv(ad.x, acc.x)),
            )
            &&& mulv(subv(ad.x, acc.x), crate::basefield::fp8_inverse_v(subv(ad.x, acc.x)))
                == fp8_one_v()
            &&& crate::affine::on_curve_v(crate::affine::add_v(acc, ad))
        },
        (acc.inf && !ds_addend_v(pk, g, s, e).inf) ==> rv(rw, DS_ADD_X_START as int)
            == ds_addend_v(pk, g, s, e).x && rv(rw, DS_ADD_Y_START as int) == ds_addend_v(
            pk,
            g,
            s,
            e,
        ).y,
        ds_addend_v(pk, g, s, e).inf ==> rv(rw, DS_ADD_X_START as int) == acc.x && rv(
            rw,
            DS_ADD_Y_START as int,
        ) == acc.y,
    ensures
        ds_core_holds(rw, rw, prep, 0, false),
        ds_addend_v(pk, g, s, e).inf == (!s && !e),
        ds_next_acc_v(acc, ds_addend_v(pk, g, s, e)).inf == (acc.inf && !s && !e),
{
    let p = FP as int;
    let si: int = rw[DS_S_BIT_COL as int] as int;
    let ei: int = rw[DS_E_BIT_COL as int] as int;
    let inf: int = rw[DS_ACC_INF_COL as int] as int;
    let ainf = (((1 - si) % p) * ((1 - ei) % p)) % p;
    let sel = (1 - ainf) % p;
    let ad = ds_addend_v(pk, g, s, e);
    vstd::arithmetic::div_mod::lemma_small_mod(0nat, FP as nat);
    vstd::arithmetic::div_mod::lemma_small_mod(1nat, FP as nat);
    assert(0int * 0 == 0 && 0 * 1 == 0 && 1 * 0 == 0 && 1int * 1 == 1) by (nonlinear_arith);
    // the selector values on boolean bits
    assert(ainf == (if !s && !e {
        1int
    } else {
        0int
    }));
    assert(sel == (if !s && !e {
        0int
    } else {
        1int
    }));
    // the doubled public key: its tangent denominator is invertible, so
    // pk.y is not zero and the tangent branch was taken
    assert(pk.y != crate::basefield::fp8_zero_v()) by {
        if pk.y == crate::basefield::fp8_zero_v() {
            assert(forall|i: int| 0 <= i < 8 ==> #[trigger] mulsv(pk.y, 2)[i] == 0) by {
                assert(forall|i: int|
                    0 <= i < 8 ==> (#[trigger] pk.y[i]) == crate::basefield::fp8_zero_v()[i]);
                assert(0int * 2 == 0) by (nonlinear_arith);
            }
            crate::basefield::lemma_mulv_zero_not_one(
                mulsv(pk.y, 2),
                crate::basefield::fp8_inverse_v(mulsv(pk.y, 2)),
            );
        }
    }
    let x2 = mulv(pk.x, pk.x);
    crate::basefield::lemma_addv3_is_mulsv3(x2);
    crate::basefield::lemma_addv2_is_mulsv2(pk.y);
    let dnum = addv(mulsv(x2, 3), crate::affine::curve_a_v());
    let dslope = mulv(dnum, crate::basefield::fp8_inverse_v(mulsv(pk.y, 2)));
    assert(addv(addv(addv(x2, x2), x2), crate::affine::curve_a_v()) == dnum);
    assert(addv(pk.y, pk.y) == mulsv(pk.y, 2));
    let dv = crate::affine::double_v(pk);
    crate::basefield::lemma_subv_twice(mulv(dslope, dslope), pk.x);
    assert(dv.x == subv(mulv(dslope, dslope), mulsv(pk.x, 2)));
    assert(dv.y == subv(mulv(dslope, subv(pk.x, dv.x)), pk.y));
    assert(double_block_holds(
        rv(rw, DS_PK_X_START as int),
        rv(rw, DS_PK_Y_START as int),
        rv(rw, DS_PK_DOUBLE_NUM_START as int),
        rv(rw, DS_PK_DOUBLE_DEN_START as int),
        rv(rw, DS_PK_DOUBLE_INV_START as int),
        rv(rw, DS_PK_DOUBLE_SLOPE_START as int),
        rv(rw, DS_PK_DOUBLE_X_START as int),
        rv(rw, DS_PK_DOUBLE_Y_START as int),
    ));
    // the sum with the generator power: its chord denominator is
    // invertible, so the x-coordinates differ and the chord branch was
    // taken
    assert(pk.x != g.x) by {
        if pk.x == g.x {
            assert(forall|i: int| 0 <= i < 8 ==> #[trigger] subv(g.x, pk.x)[i] == 0) by {
                assert(forall|i: int| 0 <= i < 8 ==> (#[trigger] g.x[i]) == pk.x[i]);
                vstd::arithmetic::div_mod::lemma_mod_self_0(p);
            }
            crate::basefield::lemma_mulv_zero_not_one(
                subv(g.x, pk.x),
                crate::basefield::fp8_inverse_v(subv(g.x, pk.x)),
            );
        }
    }
    let sm = crate::affine::add_v(pk, g);
    assert(!sm.inf);
    assert(add_block_holds(
        rv(rw, DS_PK_X_START as int),
        rv(rw, DS_PK_Y_START as int),
        rv(prep, GS_PREP_BASE_X_START as int),
        rv(prep, GS_PREP_BASE_Y_START as int),
        rv(rw, DS_SUM_NUM_START as int),
        rv(rw, DS_SUM_DEN_START as int),
        rv(rw, DS_SUM_INV_START as int),
        rv(rw, DS_SUM_SLOPE_START as int),
        rv(rw, DS_SUM_X_START as int),
        rv(rw, DS_SUM_Y_START as int),
    ));
    // the selected addend: the four-way polynomial picks it
    assert(ad.inf == (!s && !e));
    assert(forall|i: int| 0 <= i < 8 ==> 0 <= #[trigger] sm.x[i] < FP && 0 <= #[trigger] sm.y[i]
        < FP) by {
        assert(forall|i: int|
            0 <= i < 8 ==> #[trigger] sm.x[i] == subv(
                subv(
                    mulv(
                        mulv(subv(g.y, pk.y), crate::basefield::fp8_inverse_v(subv(g.x, pk.x))),
                        mulv(subv(g.y, pk.y), crate::basefield::fp8_inverse_v(subv(g.x, pk.x))),
                    ),
                    pk.x,
                ),
                g.x,
            )[i]);
        assert forall|i: int| 0 <= i < 8 implies 0 <= #[trigger] sm.x[i] < FP && 0 <= sm.y[i]
            < FP by {
            vstd::arithmetic::div_mod::lemma_mod_division_less_than_divisor(
                sm.x[i] * 0 + 0,
                p,
            );
        }
    }
    lemma_addend_combine_selects(g.x, pk.x, sm.x, si, ei);
    lemma_addend_combine_selects(g.y, pk.y, sm.y, si, ei);
    assert(rv(rw, DS_ADDEND_X_START as int) == addend_combine(
        rv(prep, GS_PREP_BASE_X_START as int),
        rv(rw, DS_PK_X_START as int),
        rv(rw, DS_SUM_X_START as int),
        si,
        ei,
    ));
    assert(rv(rw, DS_ADDEND_Y_START as int) == addend_combine(
        rv(prep, GS_PREP_BASE_Y_START as int),
        rv(rw, DS_PK_Y_START as int),
        rv(rw, DS_SUM_Y_START as int),
        si,
        ei,
    ));
    // the guarded accumulator addition
    let guard_add = (((1 - inf) % p) * sel) % p;
    let guard_init = (inf * sel) % p;
    assert(guard_add == (if !acc.inf && !(!s && !e) {
        1int
    } else {
        0int
    }));
    assert(guard_init == (if acc.inf && !(!s && !e) {
        1int
    } else {
        0int
    }));
    if !acc.inf && !ad.inf {
        assert(acc.x != ad.x) by {
            if acc.x == ad.x {
                assert(forall|i: int| 0 <= i < 8 ==> #[trigger] subv(ad.x, acc.x)[i] == 0) by {
                    assert(forall|i: int| 0 <= i < 8 ==> (#[trigger] ad.x[i]) == acc.x[i]);
                    vstd::arithmetic::div_mod::lemma_mod_self_0(p);
                }
                crate::basefield::lemma_mulv_zero_not_one(
                    subv(ad.x, acc.x),
                    crate::basefield::fp8_inverse_v(subv(ad.x, acc.x)),
                );
            }
        }
        assert(add_block_holds(
            rv(rw, DS_ACC_X_START as int),
            rv(rw, DS_ACC_Y_START as int),
            rv(rw, DS_ADDEND_X_START as int),
            rv(rw, DS_ADDEND_Y_START as int),
            rv(rw, DS_ADD_NUM_START as int),
            rv(rw, DS_ADD_DEN_START as int),
            rv(rw, DS_ADD_INV_START as int),
            rv(rw, DS_ADD_SLOPE_START as int),
            rv(rw, DS_ADD_X_START as int),
            rv(rw, DS_ADD_Y_START as int),
        ));
        assert(!crate::affine::add_v(acc, ad).inf);
    }
    assert(ds_next_acc_v(acc, ad).inf == (acc.inf && !s && !e));
    // the on-curve constraints restate the model's curve membership
    assert(on_curve_holds(
        rv(rw, DS_SUM_X_START as int),
        rv(rw, DS_SUM_Y_START as int),
    ));
    assert(on_curve_holds(rv(rw, DS_PK_X_START as int), rv(rw, DS_PK_Y_START as int)));
    assert(on_curve_holds(
        rv(prep, GS_PREP_BASE_X_START as int),
        rv(prep, GS_PREP_BASE_Y_START as int),
    ));
    if inf == 0 {
        assert(!acc.inf);
        assert(on_curve_holds(rv(rw, DS_ACC_X_START as int), rv(rw, DS_ACC_Y_START as int)));
    }
    if sel != 0 {
        assert(!ad.inf);
        if s && !e {
            assert(on_curve_holds(
                rv(rw, DS_ADDEND_X_START as int),
                rv(rw, DS_ADDEND_Y_START as int),
            ));
        } else if !s && e {
            assert(on_curve_holds(
                rv(rw, DS_ADDEND_X_START as int),
                rv(rw, DS_ADDEND_Y_START as int),
            ));
        } else {
            assert(on_curve_holds(
                rv(rw, DS_ADDEND_X_START as int),
                rv(rw, DS_ADDEND_Y_START as int),
            ));
        }
    }
    assert(ds_core_holds(rw, rw, prep, 0, false));
}

/// Build one row of the double-and-add trace: the running points and the
/// scheduled bits in their columns, the selected addend, the addition
/// output, and every inversion intermediate. Succeeds exactly when the row
/// is feasible, and also returns the selected addend.
#[verifier::rlimit(100)]
#[verifier::spinoff_prover]
fn build_ds_row(
    acc: &CircuitPoint,
    pk_current: &CircuitPoint,
    g_current: &CircuitPoint,
    s_bit: bool,
    e_bit: bool,
) -> (res: Result<(Vec<u32>, CircuitPoint), SchnorrError>)
    requires
        cp_wf(*acc),
        cp_wf(*pk_current),
        cp_wf(*g_current),
    ensures
        res.is_ok() <==> ds_row_feasible(cpv(*acc), cpv(*pk_current), cpv(*g_current), s_bit, e_bit),
        res matches Err(e) ==> e == SchnorrError::InvalidWitness,
        res matches Ok(p) ==> {
            let rw = p.0@;
            &&& rw.len() == SCHNORR_COLUMNS
            &&& (forall|j: int| 0 <= j < rw.len() ==> rw[j] < FP)
            &&& rv(rw, DS_ACC_X_START as int) == cpv(*acc).x
            &&& rv(rw, DS_ACC_Y_START as int) == cpv(*acc).y
            &&& rw[DS_ACC_INF_COL as int] == (if cpv(*acc).inf {
                1u32
            } else {
                0u32
            })
            &&& rv(rw, DS_PK_X_START as int) == cpv(*pk_current).x
            &&& rv(rw, DS_PK_Y_START as int) == cpv(*pk_current).y
            &&& rw[DS_S_BIT_COL as int] == (if s_bit {
                1u32
            } else {
                0u32
            })
            &&& rw[DS_E_BIT_COL as int] == (if e_bit {
                1u32
            } else {
                0u32
            })
            &&& cp_wf(p.1)
            &&& cpv(p.1) == ds_addend_v(cpv(*pk_current), cpv(*g_current), s_bit, e_bit)
            &&& cpv(p.1).inf == (!s_bit && !e_bit)
            &&& rv(rw, DS_PK_DOUBLE_X_START as int) == crate::affine::double_v(
                cpv(*pk_current),
            ).x
            &&& rv(rw, DS_PK_DOUBLE_Y_START as int) == crate::affine::double_v(
                cpv(*pk_current),
            ).y
            &&& rv(rw, DS_ADD_X_START as int) == ds_next_acc_v(
                cpv(*acc),
                ds_addend_v(cpv(*pk_current), cpv(*g_current), s_bit, e_bit),
            ).x
            &&& rv(rw, DS_ADD_Y_START as int) == ds_next_acc_v(
                cpv(*acc),
                ds_addend_v(cpv(*pk_current), cpv(*g_current), s_bit, e_bit),
            ).y
            &&& ds_next_acc_v(
                cpv(*acc),
                ds_addend_v(cpv(*pk_current), cpv(*g_current), s_bit, e_bit),
            ).inf == (cpv(*acc).inf && !s_bit && !e_bit)
            &&& ds_core_holds(rw, rw, point_prep_row(cpv(*g_current)), 0, false)
        },
{
    if pk_current.is_infinity || g_current.is_infinity {
        proof {
            assert(!ds_row_feasible(cpv(*acc), cpv(*pk_current), cpv(*g_current), s_bit, e_bit))
                by {
                reveal(ds_row_feasible);
            }
        }
        return Err(SchnorrError::InvalidWitness);
    }
    let pk_aff = pk_current.to_affine();
    if !pk_aff.is_on_curve() {
        proof {
            assert(!ds_row_feasible(cpv(*acc), cpv(*pk_current), cpv(*g_current), s_bit, e_bit))
                by {
                reveal(ds_row_feasible);
            }
        }
        return Err(SchnorrError::InvalidWitness);
    }
    let g_aff = g_current.to_affine();
    if !g_aff.is_on_curve() {
        proof {
            assert(!ds_row_feasible(cpv(*acc), cpv(*pk_current), cpv(*g_current), s_bit, e_bit))
                by {
                reveal(ds_row_feasible);
            }
        }
        return Err(SchnorrError::InvalidWitness);
    }
    if !acc.is_infinity {
        let acc_aff = acc.to_affine();
        if !acc_aff.is_on_curve() {
            proof {
                assert(!ds_row_feasible(cpv(*acc), cpv(*pk_current), cpv(*g_current), s_bit, e_bit))
                    by {
                    reveal(ds_row_feasible);
                }
            }
            return Err(SchnorrError::InvalidWitness);
        }
    }
    let mut row: Vec<u32> = Vec::new();
    let mut z: usize = 0;
    while z < SCHNORR_COLUMNS
        invariant
            z <= SCHNORR_COLUMNS,
            row@.len() == z,
            forall|t: int| 0 <= t < z ==> row@[t] == 0,
        decreases SCHNORR_COLUMNS - z,
    {
        row.push(0);
        z += 1;
    }
    write_point(&mut row, DS_ACC_X_START, acc);
    write_point(&mut row, DS_PK_X_START, pk_current);
    let pk_double = pk_current.double();
    write_point(&mut row, DS_PK_DOUBLE_X_START, &pk_double);
    let ok1 = fill_double_intermediates(&mut row, DS_PK_DOUBLE_NUM_START, pk_current);
    if !ok1 {
        proof {
            assert(!ds_row_feasible(cpv(*acc), cpv(*pk_current), cpv(*g_current), s_bit, e_bit))
                by {
                reveal(ds_row_feasible);
            }
        }
        return Err(SchnorrError::InvalidWitness);
    }
    let sum = pk_current.add(g_current);
    if !sum.to_affine().is_on_curve() {
        proof {
            assert(!ds_row_feasible(cpv(*acc), cpv(*pk_current), cpv(*g_current), s_bit, e_bit))
                by {
                reveal(ds_row_feasible);
            }
        }
        return Err(SchnorrError::InvalidWitness);
    }
    write_point(&mut row, DS_SUM_X_START, &sum);
    let ok2 = fill_add_intermediates(&mut row, DS_SUM_NUM_START, pk_current, g_current);
    if !ok2 {
        proof {
            assert(!ds_row_feasible(cpv(*acc), cpv(*pk_current), cpv(*g_current), s_bit, e_bit))
                by {
                reveal(ds_row_feasible);
            }
        }
        return Err(SchnorrError::InvalidWitness);
    }
    let addend = if !s_bit && !e_bit {
        CircuitPoint::infinity()
    } else if s_bit && !e_bit {
        *g_current
    } else if !s_bit && e_bit {
        *pk_current
    } else {
        sum
    };
    proof {
        if !s_bit && !e_bit {
            assert(cpv(addend) =~= ds_addend_v(cpv(*pk_current), cpv(*g_current), s_bit, e_bit));
        } else {
            assert(cpv(addend) == ds_addend_v(cpv(*pk_current), cpv(*g_current), s_bit, e_bit));
        }
    }
    write_point(&mut row, DS_ADDEND_X_START, &addend);
    let addend_inf = addend.is_infinity;
    let acc_inf = acc.is_infinity;
    let mut written_add: Ghost<PointV> = Ghost(cpv(*acc));
    if !acc_inf && !addend_inf {
        let acc_add = acc.add(&addend);
        if !acc_add.to_affine().is_on_curve() {
            proof {
                assert(!ds_row_feasible(cpv(*acc), cpv(*pk_current), cpv(*g_current), s_bit, e_bit))
                    by {
                    reveal(ds_row_feasible);
                }
            }
            return Err(SchnorrError::InvalidWitness);
        }
        write_point(&mut row, DS_ADD_X_START, &acc_add);
        written_add = Ghost(cpv(acc_add));
        let ok3 = fill_add_intermediates(&mut row, DS_ADD_NUM_START, acc, &addend);
        if !ok3 {
            proof {
                assert(!ds_row_feasible(cpv(*acc), cpv(*pk_current), cpv(*g_current), s_bit, e_bit))
                    by {
                    reveal(ds_row_feasible);
                }
            }
            return Err(SchnorrError::InvalidWitness);
        }
    } else if acc_inf && !addend_inf {
        write_point(&mut row, DS_ADD_X_START, &addend);
        written_add = Ghost(cpv(addend));
    } else {
        write_point(&mut row, DS_ADD_X_START, acc);
    }
    row.set(DS_S_BIT_COL, if s_bit {
        1
    } else {
        0
    });
    row.set(DS_E_BIT_COL, if e_bit {
        1
    } else {
        0
    });
    row.set(DS_ACC_INF_COL, if acc_inf {
        1
    } else {
        0
    });
    proof {
        assert(ds_row_feasible(cpv(*acc), cpv(*pk_current), cpv(*g_current), s_bit, e_bit)) by {
            reveal(ds_row_feasible);
        }
        let accv = cpv(*acc);
        let pkv = cpv(*pk_current);
        let gv = cpv(*g_current);
        let adv = ds_addend_v(pkv, gv, s_bit, e_bit);
        assert(rv(row@, DS_ACC_X_START as int) =~= accv.x);
        assert(rv(row@, DS_ACC_Y_START as int) =~= accv.y);
        assert(rv(row@, DS_PK_X_START as int) =~= pkv.x);
        assert(rv(row@, DS_PK_Y_START as int) =~= pkv.y);
        assert(rv(row@, DS_PK_DOUBLE_X_START as int) =~= cpv(pk_double).x);
        assert(rv(row@, DS_PK_DOUBLE_Y_START as int) =~= cpv(pk_double).y);
        assert(rv(row@, DS_PK_DOUBLE_NUM_START as int) == addv(
            mulsv(mulv(pkv.x, pkv.x), 3),
            crate::affine::curve_a_v(),
        ));
        assert(rv(row@, DS_PK_DOUBLE_DEN_START as int) == mulsv(pkv.y, 2));
        assert(rv(row@, DS_PK_DOUBLE_INV_START as int) == crate::basefield::fp8_inverse_v(
            mulsv(pkv.y, 2),
        ));
        assert(rv(row@, DS_PK_DOUBLE_SLOPE_START as int) == mulv(
            addv(mulsv(mulv(pkv.x, pkv.x), 3), crate::affine::curve_a_v()),
            crate::basefield::fp8_inverse_v(mulsv(pkv.y, 2)),
        ));
        assert(rv(row@, DS_SUM_X_START as int) =~= cpv(sum).x);
        assert(rv(row@, DS_SUM_Y_START as int) =~= cpv(sum).y);
        assert(rv(row@, DS_SUM_NUM_START as int) == subv(gv.y, pkv.y));
        assert(rv(row@, DS_SUM_DEN_START as int) == subv(gv.x, pkv.x));
        assert(rv(row@, DS_SUM_INV_START as int) == crate::basefield::fp8_inverse_v(
            subv(gv.x, pkv.x),
        ));
        assert(rv(row@, DS_SUM_SLOPE_START as int) == mulv(
            subv(gv.y, pkv.y),
            crate::basefield::fp8_inverse_v(subv(gv.x, pkv.x)),
        ));
        assert(rv(row@, DS_ADDEND_X_START as int) =~= cpv(addend).x);
        assert(rv(row@, DS_ADDEND_Y_START as int) =~= cpv(addend).y);
        assert(rv(row@, DS_ADD_X_START as int) =~= written_add@.x);
        assert(rv(row@, DS_ADD_Y_START as int) =~= written_add@.y);
        if !acc_inf && !addend_inf {
            assert(written_add@ == crate::affine::add_v(accv, adv));
            assert(rv(row@, DS_ADD_NUM_START as int) == subv(adv.y, accv.y));
            assert(rv(row@, DS_ADD_DEN_START as int) == subv(adv.x, accv.x));
            assert(rv(row@, DS_ADD_INV_START as int) == crate::basefield::fp8_inverse_v(
                subv(adv.x, accv.x),
            ));
            assert(rv(row@, DS_ADD_SLOPE_START as int) == mulv(
                subv(adv.y, accv.y),
                crate::basefield::fp8_inverse_v(subv(adv.x, accv.x)),
            ));
        }
        let prep = point_prep_row(gv);
        assert(rv(prep, GS_PREP_BASE_X_START as int) =~= gv.x);
        assert(rv(prep, GS_PREP_BASE_Y_START as int) =~= gv.y);
        lemma_ds_row_core(row@, prep, accv, pkv, gv, s_bit, e_bit);
    }
    Ok((row, addend))
}

/// One appended row, stated over the loop's running points: unfolds the
/// schedule by one step and extends every per-row fact.
proof fn lemma_ds_append_step(
    old_trace: Seq<u32>,
    row_snap: Seq<u32>,
    t: Seq<u32>,
    i: int,
    pk: PointV,
    s_bits: Seq<bool>,
    e_bits: Seq<bool>,
    accv: PointV,
    pkv: PointV,
    gv: PointV,
    s: bool,
    e: bool,
)
    requires
        t == old_trace + row_snap,
        old_trace.len() == i * (SCHNORR_COLUMNS as int),
        row_snap.len() == SCHNORR_COLUMNS as int,
        i >= 0,
        cells_wf(old_trace),
        forall|j: int| 0 <= j < row_snap.len() ==> row_snap[j] < FP,
        forall|q: int| 0 <= q < i ==> #[trigger] ds_bit_cells_ok(old_trace, q, s_bits, e_bits),
        forall|q: int| 0 <= q < i ==> #[trigger] ds_point_cells_ok(old_trace, q, pk, s_bits, e_bits),
        forall|q: int| 0 <= q < i ==> #[trigger] ds_row_sat(old_trace, q),
        i > 0 ==> ds_first_row_ok(old_trace, pk),
        accv == ds_acc_at(pk, generator_v(), s_bits, e_bits, i),
        pkv == crate::msm::double_n_v(pk, i),
        gv == crate::msm::double_n_v(generator_v(), i),
        s == (i < s_bits.len() && s_bits[i]),
        e == (i < e_bits.len() && e_bits[i]),
        rv(row_snap, DS_ACC_X_START as int) == accv.x,
        rv(row_snap, DS_ACC_Y_START as int) == accv.y,
        row_snap[DS_ACC_INF_COL as int] == (if accv.inf {
            1u32
        } else {
            0u32
        }),
        rv(row_snap, DS_PK_X_START as int) == pkv.x,
        rv(row_snap, DS_PK_Y_START as int) == pkv.y,
        rv(row_snap, DS_PK_DOUBLE_X_START as int) == crate::affine::double_v(pkv).x,
        rv(row_snap, DS_PK_DOUBLE_Y_START as int) == crate::affine::double_v(pkv).y,
        rv(row_snap, DS_ADD_X_START as int) == ds_next_acc_v(accv, ds_addend_v(pkv, gv, s, e)).x,
        rv(row_snap, DS_ADD_Y_START as int) == ds_next_acc_v(accv, ds_addend_v(pkv, gv, s, e)).y,
        ds_next_acc_v(accv, ds_addend_v(pkv, gv, s, e)).inf == (accv.inf && !s && !e),
        row_snap[DS_S_BIT_COL as int] == (if s {
            1u32
        } else {
            0u32
        }),
        row_snap[DS_E_BIT_COL as int] == (if e {
            1u32
        } else {
            0u32
        }),
        ds_core_holds(row_snap, row_snap, point_prep_row(gv), 0, false),
    ensures
        cells_wf(t),
        forall|q: int| 0 <= q < i + 1 ==> #[trigger] ds_bit_cells_ok(t, q, s_bits, e_bits),
        forall|q: int| 0 <= q < i + 1 ==> #[trigger] ds_point_cells_ok(t, q, pk, s_bits, e_bits),
        forall|q: int| 0 <= q < i + 1 ==> #[trigger] ds_row_sat(t, q),
        ds_first_row_ok(t, pk),
        ds_acc_at(pk, generator_v(), s_bits, e_bits, i + 1) == ds_next_acc_v(
            accv,
            ds_addend_v(pkv, gv, s, e),
        ),
        crate::msm::double_n_v(pk, i + 1) == crate::affine::double_v(pkv),
        crate::msm::double_n_v(generator_v(), i + 1) == crate::affine::double_v(gv),
{
    assert(ds_acc_at(pk, generator_v(), s_bits, e_bits, i + 1) == ds_next_acc_v(
        accv,
        ds_addend_v(pkv, gv, s, e),
    ));
    assert(crate::msm::double_n_v(pk, i + 1) == crate::affine::double_v(pkv));
    assert(crate::msm::double_n_v(generator_v(), i + 1) == crate::affine::double_v(gv));
    lemma_ds_append_row(old_trace, row_snap, t, i, pk, s_bits, e_bits, accv, pkv, s, e);
}

/// Build the interleaved double-and-add trace for `s * G + (-e) * P`: one
/// row per bit position, padded with zero bits to a power-of-two height.
/// Succeeds exactly when every row of the schedule can be witnessed: it
/// fails when a stored inversion does not invert its denominator, or when
/// a running point degenerates off the curve or to the identity, in which
/// case no row of this layout satisfies the constraints.
#[verifier::rlimit(100)]
pub fn build_double_scalar_trace(s_bits: &[bool], e_bits: &[bool], pk: &CircuitPoint) -> (r:
    Result<Vec<u32>, SchnorrError>)
    requires
        cp_wf(*pk),
        1 <= s_bits@.len() <= 0x100000,
        1 <= e_bits@.len() <= 0x100000,
    ensures
        r.is_ok() <==> ds_build_ok(
            crate::affine::infinity_v(),
            cpv(*pk),
            generator_v(),
            s_bits@,
            e_bits@,
            0,
            crate::scalar_mul_air::pow2_ceil(
                if s_bits@.len() >= e_bits@.len() {
                    s_bits@.len() as int
                } else {
                    e_bits@.len() as int
                },
            ),
        ),
        r matches Err(e) ==> e == SchnorrError::InvalidWitness,
        r matches Ok(t) ==> {
            let h = t@.len() as int / (SCHNORR_COLUMNS as int);
            &&& cells_wf(t@)
            &&& t@.len() as int % (SCHNORR_COLUMNS as int) == 0
            &&& h == crate::scalar_mul_air::pow2_ceil(
                if s_bits@.len() >= e_bits@.len() {
                    s_bits@.len() as int
                } else {
                    e_bits@.len() as int
                },
            )
            &&& vstd::arithmetic::power2::is_pow2(h)
            &&& h >= s_bits@.len()
            &&& h >= e_bits@.len()
            &&& forall|q: int| 0 <= q < h ==> #[trigger] ds_bit_cells_ok(t@, q, s_bits@, e_bits@)
            &&& forall|q: int|
                0 <= q < h ==> #[trigger] ds_point_cells_ok(t@, q, cpv(*pk), s_bits@, e_bits@)
            &&& forall|q: int| 0 <= q < h ==> #[trigger] ds_row_constrained(t@, q, h)
            &&& ds_first_row_ok(t@, cpv(*pk))
        },
{
    let mut acc = CircuitPoint::infinity();
    let mut pk_current = *pk;
    let mut g_current = CircuitPoint::from_affine(&Affine::generator());
    let longer: usize = if s_bits.len() > e_bits.len() {
        s_bits.len()
    } else {
        e_bits.len()
    };
    let num_rows = next_pow2(longer);
    let ghost n = num_rows as int;
    let ghost all_ok = ds_build_ok(
        crate::affine::infinity_v(),
        cpv(*pk),
        generator_v(),
        s_bits@,
        e_bits@,
        0,
        n,
    );
    proof {
        assert(cpv(acc) =~= crate::affine::infinity_v());
        assert(cpv(g_current) =~= generator_v());
        assert(crate::msm::double_n_v(cpv(*pk), 0) == cpv(*pk));
        assert(crate::msm::double_n_v(generator_v(), 0) == generator_v());
    }
    let mut trace: Vec<u32> = Vec::new();
    let mut row_idx: usize = 0;
    while row_idx < num_rows
        invariant
            row_idx <= num_rows,
            num_rows == n,
            n == crate::scalar_mul_air::pow2_ceil(
                if s_bits@.len() >= e_bits@.len() {
                    s_bits@.len() as int
                } else {
                    e_bits@.len() as int
                },
            ),
            num_rows <= 0x2000000,
            num_rows >= s_bits@.len(),
            num_rows >= e_bits@.len(),
            cp_wf(acc),
            cp_wf(pk_current),
            cp_wf(g_current),
            cp_wf(*pk),
            trace@.len() == row_idx * SCHNORR_COLUMNS,
            cells_wf(trace@),
            all_ok == ds_build_ok(
                crate::affine::infinity_v(),
                cpv(*pk),
                generator_v(),
                s_bits@,
                e_bits@,
                0,
                n,
            ),
            all_ok == ds_build_ok(
                cpv(acc),
                cpv(pk_current),
                cpv(g_current),
                s_bits@,
                e_bits@,
                row_idx as int,
                n,
            ),
            forall|q: int| 0 <= q < row_idx ==> #[trigger] ds_bit_cells_ok(trace@, q, s_bits@, e_bits@),
            forall|q: int|
                0 <= q < row_idx ==> #[trigger] ds_point_cells_ok(trace@, q, cpv(*pk), s_bits@, e_bits@),
            forall|q: int| 0 <= q < row_idx ==> #[trigger] ds_row_sat(trace@, q),
            row_idx > 0 ==> ds_first_row_ok(trace@, cpv(*pk)),
            cpv(acc) == ds_acc_at(cpv(*pk), generator_v(), s_bits@, e_bits@, row_idx as int),
            cpv(pk_current) == crate::msm::double_n_v(cpv(*pk), row_idx as int),
            cpv(g_current) == crate::msm::double_n_v(generator_v(), row_idx as int),
            row_idx == 0 ==> pk_current == *pk,
        decreases num_rows - row_idx,
    {
        let s_bit = if row_idx < s_bits.len() {
            s_bits[row_idx]
        } else {
            false
        };
        let e_bit = if row_idx < e_bits.len() {
            e_bits[row_idx]
        } else {
            false
        };
        let ghost spec_s = (row_idx as int) < s_bits@.len() && s_bits@[row_idx as int];
        let ghost spec_e = (row_idx as int) < e_bits@.len() && e_bits@[row_idx as int];
        proof {
            assert(s_bit == spec_s);
            assert(e_bit == spec_e);
            // one unfolding of the schedule at this row
            assert(ds_build_ok(
                cpv(acc),
                cpv(pk_current),
                cpv(g_current),
                s_bits@,
                e_bits@,
                row_idx as int,
                n,
            ) == (ds_row_feasible(cpv(acc), cpv(pk_current), cpv(g_current), spec_s, spec_e)
                && ds_build_ok(
                ds_next_acc_v(cpv(acc), ds_addend_v(cpv(pk_current), cpv(g_current), spec_s, spec_e)),
                crate::affine::double_v(cpv(pk_current)),
                crate::affine::double_v(cpv(g_current)),
                s_bits@,
                e_bits@,
                row_idx as int + 1,
                n,
            )));
        }
        let rowres = build_ds_row(&acc, &pk_current, &g_current, s_bit, e_bit);
        let (row, addend) = match rowres {
            Ok(p) => p,
            Err(_) => {
                proof {
                    assert(!all_ok);
                }
                return Err(SchnorrError::InvalidWitness);
            },
        };
        let addend_inf = addend.is_infinity;
        let acc_inf = acc.is_infinity;
        let ghost old_trace = trace@;
        let ghost row_snap = row@;
        let mut row = row;
        trace.append(&mut row);
        proof {
            lemma_ds_append_step(
                old_trace,
                row_snap,
                trace@,
                row_idx as int,
                cpv(*pk),
                s_bits@,
                e_bits@,
                cpv(acc),
                cpv(pk_current),
                cpv(g_current),
                spec_s,
                spec_e,
            );
        }
        let ghost acc_before = cpv(acc);
        if acc_inf {
            if !addend_inf {
                acc = addend;
            }
        } else if !addend_inf {
            acc = acc.add(&addend);
        }
        pk_current = pk_current.double();
        g_current = g_current.double();
        row_idx += 1;
        proof {
            assert((row_idx - 1) * SCHNORR_COLUMNS + SCHNORR_COLUMNS == row_idx * SCHNORR_COLUMNS)
                by (nonlinear_arith);
            assert(cpv(acc) == ds_next_acc_v(
                acc_before,
                ds_addend_v(
                    crate::msm::double_n_v(cpv(*pk), row_idx - 1),
                    crate::msm::double_n_v(generator_v(), row_idx - 1),
                    spec_s,
                    spec_e,
                ),
            ));
            assert(cpv(acc) == ds_acc_at(cpv(*pk), generator_v(), s_bits@, e_bits@, row_idx as int));
        }
    }
    proof {
        assert(ds_build_ok(
            cpv(acc),
            cpv(pk_current),
            cpv(g_current),
            s_bits@,
            e_bits@,
            n,
            n,
        ));
        assert((num_rows * SCHNORR_COLUMNS) as int % (SCHNORR_COLUMNS as int) == 0 && (num_rows
            * SCHNORR_COLUMNS) as int / (SCHNORR_COLUMNS as int) == num_rows as int) by {
            vstd::arithmetic::div_mod::lemma_fundamental_div_mod_converse(
                (num_rows * SCHNORR_COLUMNS) as int,
                SCHNORR_COLUMNS as int,
                num_rows as int,
                0,
            );
        }
        assert forall|q: int| 0 <= q < n implies #[trigger] ds_row_constrained(trace@, q, n) by {
            reveal(ds_row_constrained);
            assert(ds_row_sat(trace@, q));
            if q + 1 < n {
                lemma_ds_pair(trace@, q, n, cpv(*pk), s_bits@, e_bits@);
            } else {
                reveal(ds_row_sat);
            }
        }
    }
    Ok(trace)
}

/// Build the Schnorr verification trace from a signature witness: the
/// bits of `s` and `-e` drive the interleaved double-and-add over the
/// public key and the preprocessed generator powers, producing 256 rows.
/// Succeeds exactly when every row of that schedule can be witnessed.
pub fn build_schnorr_trace(witness: &SignatureWitness) -> (r: Result<SchnorrTrace, SchnorrError>)
    requires
        crate::scalar_arithmetic::cs_wf(witness.s),
        crate::scalar_arithmetic::cs_wf(witness.challenge),
        cp_wf(witness.public_key),
    ensures
        ({
            let sb = crate::scalarfield::scalar_bits(
                crate::scalar_arithmetic::cs_val(witness.s.limbs) % crate::scalarfield::modulus(),
            );
            let eb = crate::scalarfield::scalar_bits(
                (0 - (crate::scalar_arithmetic::cs_val(witness.challenge.limbs)
                    % crate::scalarfield::modulus())) % crate::scalarfield::modulus(),
            );
            &&& (r.is_ok() <==> ds_build_ok(
                crate::affine::infinity_v(),
                cpv(witness.public_key),
                generator_v(),
                sb,
                eb,
                0,
                256,
            ))
            &&& (r matches Ok(t) ==> {
                &&& cells_wf(t.trace@)
                &&& t.trace@.len() == 256 * SCHNORR_COLUMNS
                &&& (forall|q: int| 0 <= q < 256 ==> #[trigger] ds_bit_cells_ok(t.trace@, q, sb, eb))
                &&& (forall|q: int|
                    0 <= q < 256 ==> #[trigger] ds_point_cells_ok(
                        t.trace@,
                        q,
                        cpv(witness.public_key),
                        sb,
                        eb,
                    ))
                &&& (forall|q: int| 0 <= q < 256 ==> #[trigger] ds_row_constrained(t.trace@, q, 256))
                &&& ds_first_row_ok(t.trace@, cpv(witness.public_key))
            })
        }),
        r matches Err(e) ==> e == SchnorrError::InvalidWitness,
{
    let s_field = witness.s.to_scalar_field();
    let s_bits = scalar_to_bits(&s_field);
    let e_field = witness.challenge.to_scalar_field();
    let neg_e = e_field.neg();
    let neg_e_bits = scalar_to_bits(&neg_e);
    proof {
        assert(s_bits@.len() == 256);
        assert(neg_e_bits@.len() == 256);
        lemma_pow2_ceil_256();
    }
    let t = build_double_scalar_trace(s_bits.as_slice(), neg_e_bits.as_slice(), &witness.public_key);
    match t {
        Ok(trace) => Ok(SchnorrTrace { trace }),
        Err(e) => Err(e),
    }
}

/// The power-of-two ceiling of 256 is 256 itself.
pub proof fn lemma_pow2_ceil_256()
    ensures
        crate::scalar_mul_air::pow2_ceil(256) == 256,
{
    assert(crate::scalar_mul_air::pow2_ceil(1) == 1);
    assert(crate::scalar_mul_air::pow2_ceil(2) == 2);
    assert(crate::scalar_mul_air::pow2_ceil(4) == 4);
    assert(crate::scalar_mul_air::pow2_ceil(8) == 8);
    assert(crate::scalar_mul_air::pow2_ceil(16) == 16);
    assert(crate::scalar_mul_air::pow2_ceil(32) == 32);
    assert(crate::scalar_mul_air::pow2_ceil(64) == 64);
    assert(crate::scalar_mul_air::pow2_ceil(128) == 128);
    assert(crate::scalar_mul_air::pow2_ceil(256) == 256);
}

/// Row `r` of a row-major matrix of width `w`.
pub open spec fn row_of(t: Seq<u32>, r: int, w: int) -> Seq<u32> {
    t.subrange(r * w, r * w + w)
}

/// Every constraint of the Schnorr AIR over a whole trace: the row
/// constraints with transitions between consecutive rows, the first-row
/// binding of the public key and the preprocessed generator, and the
/// last-row binding of the accumulator to the public `R`.
pub open spec fn schnorr_trace_holds(t: Seq<u32>, prep: Seq<u32>, pubs: Seq<u32>, h: int) -> bool {
    &&& (forall|r: int|
        #![trigger row_of(t, r, SCHNORR_COLUMNS as int)]
        0 <= r < h ==> ds_core_holds(
            row_of(t, r, SCHNORR_COLUMNS as int),
            row_of(
                t,
                if r + 1 < h {
                    r + 1
                } else {
                    r
                },
                SCHNORR_COLUMNS as int,
            ),
            row_of(prep, r, GS_PREP_COLS as int),
            0,
            r + 1 < h,
        ))
    &&& rv(row_of(t, 0, SCHNORR_COLUMNS as int), DS_PK_X_START as int) == rv(pubs, 0)
    &&& rv(row_of(t, 0, SCHNORR_COLUMNS as int), DS_PK_Y_START as int) == rv(pubs, 8)
    &&& rv(row_of(t, 0, SCHNORR_COLUMNS as int), DS_ACC_X_START as int)
        == crate::basefield::fp8_zero_v()
    &&& rv(row_of(t, 0, SCHNORR_COLUMNS as int), DS_ACC_Y_START as int)
        == crate::basefield::fp8_zero_v()
    &&& row_of(t, 0, SCHNORR_COLUMNS as int)[DS_ACC_INF_COL as int] == 1
    &&& rv(row_of(prep, 0, GS_PREP_COLS as int), GS_PREP_BASE_X_START as int) == generator_v().x
    &&& rv(row_of(prep, 0, GS_PREP_COLS as int), GS_PREP_BASE_Y_START as int) == generator_v().y
    &&& rv(row_of(t, h - 1, SCHNORR_COLUMNS as int), DS_ACC_X_START as int) == rv(pubs, 16)
    &&& rv(row_of(t, h - 1, SCHNORR_COLUMNS as int), DS_ACC_Y_START as int) == rv(pubs, 24)
}

/// Copy one row of a row-major matrix.
fn copy_row(t: &Vec<u32>, r: usize, w: usize) -> (out: Vec<u32>)
    requires
        w >= 1,
        (r + 1) * w <= t@.len(),
        cells_wf(t@),
    ensures
        out@ == row_of(t@, r as int, w as int),
        out@.len() == w,
        cells_wf(out@),
{
    let mut out: Vec<u32> = Vec::new();
    let n: usize = t.len();
    let mut i: usize = 0;
    proof {
        vstd::arithmetic::mul::lemma_mul_is_distributive_add_other_way(w as int, r as int, 1);
        vstd::arithmetic::mul::lemma_mul_nonnegative(r as int, w as int);
    }
    while i < w
        invariant
            i <= w,
            r * w + w <= t@.len(),
            t@.len() <= usize::MAX,
            0 <= r * w,
            cells_wf(t@),
            out@.len() == i,
            forall|j: int| 0 <= j < i ==> out@[j] == t@[r * w + j],
        decreases w - i,
    {
        out.push(t[r * w + i]);
        i += 1;
    }
    proof {
        assert(out@ =~= row_of(t@, r as int, w as int));
    }
    out
}

impl SchnorrAir {
    /// Evaluate every constraint of the AIR over a main trace, a
    /// preprocessed trace, and the public values `pk || R`.
    #[verifier::rlimit(100)]
    pub fn eval_trace(&self, trace: &Vec<u32>, prep: &Vec<u32>, public_values: &Vec<u32>) -> (r:
        bool)
        requires
            self.num_rows >= 1,
            trace@.len() == self.num_rows * SCHNORR_COLUMNS,
            prep@.len() == self.num_rows * GS_PREP_COLS,
            public_values@.len() == SCHNORR_PUBLIC_VALUES,
            cells_wf(trace@),
            cells_wf(prep@),
            cells_wf(public_values@),
        ensures
            r <==> schnorr_trace_holds(trace@, prep@, public_values@, self.num_rows as int),
    {
        let h: usize = self.num_rows;
        let mut rr: usize = 0;
        while rr < h
            invariant
                rr <= h,
                h == self.num_rows,
                h >= 1,
                trace@.len() == h * SCHNORR_COLUMNS,
                prep@.len() == h * GS_PREP_COLS,
                cells_wf(trace@),
                cells_wf(prep@),
                forall|q: int|
                    #![trigger row_of(trace@, q, SCHNORR_COLUMNS as int)]
                    0 <= q < rr ==> ds_core_holds(
                        row_of(trace@, q, SCHNORR_COLUMNS as int),
                        row_of(
                            trace@,
                            if q + 1 < h {
                                q + 1
                            } else {
                                q
                            },
                            SCHNORR_COLUMNS as int,
                        ),
                        row_of(prep@, q, GS_PREP_COLS as int),
                        0,
                        q + 1 < h,
                    ),
            decreases h - rr,
        {
            proof {
                vstd::arithmetic::mul::lemma_mul_inequality(
                    rr as int + 1,
                    h as int,
                    SCHNORR_COLUMNS as int,
                );
                vstd::arithmetic::mul::lemma_mul_inequality(
                    rr as int + 1,
                    h as int,
                    GS_PREP_COLS as int,
                );
                vstd::arithmetic::mul::lemma_mul_is_distributive_add_other_way(
                    SCHNORR_COLUMNS as int,
                    rr as int,
                    1,
                );
                vstd::arithmetic::mul::lemma_mul_is_distributive_add_other_way(
                    GS_PREP_COLS as int,
                    rr as int,
                    1,
                );
            }
            let row = copy_row(trace, rr, SCHNORR_COLUMNS);
            let is_transition = rr + 1 < h;
            let next_idx: usize = if is_transition {
                rr + 1
            } else {
                rr
            };
            proof {
                vstd::arithmetic::mul::lemma_mul_inequality(
                    next_idx as int + 1,
                    h as int,
                    SCHNORR_COLUMNS as int,
                );
                vstd::arithmetic::mul::lemma_mul_is_distributive_add_other_way(
                    SCHNORR_COLUMNS as int,
                    next_idx as int,
                    1,
                );
            }
            let next_row = copy_row(trace, next_idx, SCHNORR_COLUMNS);
            let prep_row = copy_row(prep, rr, GS_PREP_COLS);
            let ok = eval_double_scalar_core(&row, &next_row, &prep_row, GS_OFFSET, is_transition);
            if !ok {
                return false;
            }
            rr += 1;
        }
        proof {
            vstd::arithmetic::mul::lemma_mul_inequality(1, h as int, SCHNORR_COLUMNS as int);
            vstd::arithmetic::mul::lemma_mul_inequality(1, h as int, GS_PREP_COLS as int);
            vstd::arithmetic::mul::lemma_mul_inequality(h as int, h as int, SCHNORR_COLUMNS as int);
            vstd::arithmetic::mul::lemma_mul_is_distributive_sub(SCHNORR_COLUMNS as int, h as int, 1);
            vstd::arithmetic::mul::lemma_mul_is_commutative(SCHNORR_COLUMNS as int, h as int - 1);
            vstd::arithmetic::mul::lemma_mul_is_commutative(SCHNORR_COLUMNS as int, h as int);
        }
        let first_row = copy_row(trace, 0, SCHNORR_COLUMNS);
        let prep_first = copy_row(prep, 0, GS_PREP_COLS);
        let last_row = copy_row(trace, h - 1, SCHNORR_COLUMNS);
        let pk_x = read_fp8(&first_row, DS_PK_X_START);
        let pk_y = read_fp8(&first_row, DS_PK_Y_START);
        let first_acc_x = read_fp8(&first_row, DS_ACC_X_START);
        let first_acc_y = read_fp8(&first_row, DS_ACC_Y_START);
        let zero8 = Fp8::zero();
        proof {
            assert(v8(zero8) =~= crate::basefield::fp8_zero_v());
        }
        let start_ok = fp8_eq_v(&first_acc_x, &zero8) && fp8_eq_v(&first_acc_y, &zero8)
            && first_row[DS_ACC_INF_COL] == 1;
        let acc_x = read_fp8(&last_row, DS_ACC_X_START);
        let acc_y = read_fp8(&last_row, DS_ACC_Y_START);
        let pub_pk_x = read_fp8(public_values, 0);
        let pub_pk_y = read_fp8(public_values, 8);
        let pub_r_x = read_fp8(public_values, 16);
        let pub_r_y = read_fp8(public_values, 24);
        let pub_ok = fp8_eq_v(&pk_x, &pub_pk_x) && fp8_eq_v(&pk_y, &pub_pk_y) && fp8_eq_v(
            &acc_x,
            &pub_r_x,
        ) && fp8_eq_v(&acc_y, &pub_r_y);
        let gen = CircuitPoint::from_affine(&Affine::generator());
        let gx = read_fp8(&prep_first, GS_PREP_BASE_X_START);
        let gy = read_fp8(&prep_first, GS_PREP_BASE_Y_START);
        let gen_x = gen.x_as_basefield();
        let gen_y = gen.y_as_basefield();
        let gen_ok = fp8_eq_v(&gx, &gen_x) && fp8_eq_v(&gy, &gen_y);
        proof {
            if gen_ok {
                assert(v8(gx) =~= generator_v().x);
                assert(v8(gy) =~= generator_v().y);
            } else {
                assert(cpv(gen).x =~= generator_v().x);
                assert(cpv(gen).y =~= generator_v().y);
            }
        }
        pub_ok && gen_ok && start_ok
    }
}

} // verus!
