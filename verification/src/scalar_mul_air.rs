//! AIR for one bit-serial scalar multiplication: column layout, row
//! constraint checks, and the witness trace builder.

use vstd::prelude::*;

verus! {

use crate::affine::{curve_a_v, curve_b_v};
use crate::basefield::{
    addv, fp8_add, fp8_eq_v, fp8_inverse, fp8_mul, fp8_mul_scalar, fp8_one_v, fp8_sub, fp8_wf,
    mulsv, mulv, subv, v8, Fp8, FP,
};
use crate::errors::SchnorrError;
use crate::point_ops::{cp_wf, cpv, CircuitPoint};

/// Base-field cells per extension-field coordinate.
pub const COORD_LIMBS: usize = 8;

/// Accumulator x-coordinate.
pub const ACC_X_START: usize = 0;

/// Accumulator y-coordinate.
pub const ACC_Y_START: usize = 8;

/// Running base-point x-coordinate.
pub const BASE_X_START: usize = 16;

/// Running base-point y-coordinate.
pub const BASE_Y_START: usize = 24;

/// `acc + base` x-coordinate.
pub const ADD_X_START: usize = 32;

/// `acc + base` y-coordinate.
pub const ADD_Y_START: usize = 40;

/// Doubled base x-coordinate.
pub const DOUBLE_X_START: usize = 48;

/// Doubled base y-coordinate.
pub const DOUBLE_Y_START: usize = 56;

/// Chord numerator of the addition.
pub const ADD_NUM_START: usize = 64;

/// Chord denominator of the addition.
pub const ADD_DEN_START: usize = 72;

/// Inverse of the addition denominator.
pub const ADD_INV_START: usize = 80;

/// Chord slope of the addition.
pub const ADD_SLOPE_START: usize = 88;

/// Tangent numerator of the doubling.
pub const DOUBLE_NUM_START: usize = 96;

/// Tangent denominator of the doubling.
pub const DOUBLE_DEN_START: usize = 104;

/// Inverse of the doubling denominator.
pub const DOUBLE_INV_START: usize = 112;

/// Tangent slope of the doubling.
pub const DOUBLE_SLOPE_START: usize = 120;

/// The scalar bit of the row.
pub const BIT_COL: usize = 128;

/// Whether the accumulator is still the identity.
pub const ACC_INF_COL: usize = 129;

/// Total width of the scalar multiplication trace.
pub const NUM_COLUMNS: usize = 130;

/// Public cells holding the base point.
pub const PUBLIC_BASE_LIMBS: usize = 16;

/// Public cells holding the result point.
pub const PUBLIC_OUT_LIMBS: usize = 16;

/// All cells are canonical base-field values.
pub open spec fn cells_wf(t: Seq<u32>) -> bool {
    forall|i: int| 0 <= i < t.len() ==> t[i] < FP
}

/// Eight consecutive cells as a coefficient sequence.
pub open spec fn rv(t: Seq<u32>, start: int) -> Seq<int> {
    Seq::new(8, |i: int| t[start + i] as int)
}

/// Read eight consecutive cells as an extension field element.
pub fn read_fp8(row: &Vec<u32>, start: usize) -> (r: Fp8)
    requires
        start + 8 <= row@.len(),
        cells_wf(row@),
    ensures
        fp8_wf(r),
        v8(r) == rv(row@, start as int),
{
    let n: usize = row.len();
    let c: [u32; 8] = [
        row[start],
        row[start + 1],
        row[start + 2],
        row[start + 3],
        row[start + 4],
        row[start + 5],
        row[start + 6],
        row[start + 7],
    ];
    let r = Fp8::from_coeffs(c);
    proof {
        assert(v8(r) =~= rv(row@, start as int));
    }
    r
}

/// The chord-and-tangent addition block: the stored numerator, denominator,
/// inverse, slope and output satisfy the affine addition formulas between
/// `acc` and `base`.
pub open spec fn add_block_holds(
    acc_x: Seq<int>,
    acc_y: Seq<int>,
    base_x: Seq<int>,
    base_y: Seq<int>,
    num: Seq<int>,
    den: Seq<int>,
    inv: Seq<int>,
    slope: Seq<int>,
    out_x: Seq<int>,
    out_y: Seq<int>,
) -> bool {
    &&& num == subv(base_y, acc_y)
    &&& den == subv(base_x, acc_x)
    &&& mulv(den, inv) == fp8_one_v()
    &&& slope == mulv(num, inv)
    &&& out_x == subv(subv(mulv(slope, slope), acc_x), base_x)
    &&& out_y == subv(mulv(slope, subv(acc_x, out_x)), acc_y)
}

/// Check the addition block on concrete field elements.
pub fn check_add_block(
    acc_x: &Fp8,
    acc_y: &Fp8,
    base_x: &Fp8,
    base_y: &Fp8,
    num: &Fp8,
    den: &Fp8,
    inv: &Fp8,
    slope: &Fp8,
    out_x: &Fp8,
    out_y: &Fp8,
) -> (r: bool)
    requires
        fp8_wf(*acc_x),
        fp8_wf(*acc_y),
        fp8_wf(*base_x),
        fp8_wf(*base_y),
        fp8_wf(*num),
        fp8_wf(*den),
        fp8_wf(*inv),
        fp8_wf(*slope),
        fp8_wf(*out_x),
        fp8_wf(*out_y),
    ensures
        r <==> add_block_holds(
            v8(*acc_x),
            v8(*acc_y),
            v8(*base_x),
            v8(*base_y),
            v8(*num),
            v8(*den),
            v8(*inv),
            v8(*slope),
            v8(*out_x),
            v8(*out_y),
        ),
{
    let one = Fp8::one();
    proof {
        assert(v8(one) =~= fp8_one_v());
    }
    let c1 = fp8_eq_v(num, &fp8_sub(base_y, acc_y));
    let c2 = fp8_eq_v(den, &fp8_sub(base_x, acc_x));
    let c3 = fp8_eq_v(&fp8_mul(den, inv), &one);
    let c4 = fp8_eq_v(slope, &fp8_mul(num, inv));
    let slope2 = fp8_mul(slope, slope);
    let x3 = fp8_sub(&fp8_sub(&slope2, acc_x), base_x);
    let y3 = fp8_sub(&fp8_mul(slope, &fp8_sub(acc_x, &x3)), acc_y);
    let c5 = fp8_eq_v(out_x, &x3);
    let c6 = fp8_eq_v(out_y, &y3);
    c1 && c2 && c3 && c4 && c5 && c6
}

/// The tangent doubling block: the stored values satisfy the doubling
/// formulas for `base`.
pub open spec fn double_block_holds(
    base_x: Seq<int>,
    base_y: Seq<int>,
    num: Seq<int>,
    den: Seq<int>,
    inv: Seq<int>,
    slope: Seq<int>,
    out_x: Seq<int>,
    out_y: Seq<int>,
) -> bool {
    &&& num == addv(mulsv(mulv(base_x, base_x), 3), curve_a_v())
    &&& den == mulsv(base_y, 2)
    &&& mulv(den, inv) == fp8_one_v()
    &&& slope == mulv(num, inv)
    &&& out_x == subv(mulv(slope, slope), mulsv(base_x, 2))
    &&& out_y == subv(mulv(slope, subv(base_x, out_x)), base_y)
}

/// Check the doubling block on concrete field elements.
pub fn check_double_block(
    base_x: &Fp8,
    base_y: &Fp8,
    num: &Fp8,
    den: &Fp8,
    inv: &Fp8,
    slope: &Fp8,
    out_x: &Fp8,
    out_y: &Fp8,
) -> (r: bool)
    requires
        fp8_wf(*base_x),
        fp8_wf(*base_y),
        fp8_wf(*num),
        fp8_wf(*den),
        fp8_wf(*inv),
        fp8_wf(*slope),
        fp8_wf(*out_x),
        fp8_wf(*out_y),
    ensures
        r <==> double_block_holds(
            v8(*base_x),
            v8(*base_y),
            v8(*num),
            v8(*den),
            v8(*inv),
            v8(*slope),
            v8(*out_x),
            v8(*out_y),
        ),
{
    let one = Fp8::one();
    let a8 = crate::affine::Affine::curve_a();
    proof {
        assert(v8(one) =~= fp8_one_v());
    }
    let x2 = fp8_mul(base_x, base_x);
    let c1 = fp8_eq_v(num, &fp8_add(&fp8_mul_scalar(&x2, 3), &a8));
    let c2 = fp8_eq_v(den, &fp8_mul_scalar(base_y, 2));
    let c3 = fp8_eq_v(&fp8_mul(den, inv), &one);
    let c4 = fp8_eq_v(slope, &fp8_mul(num, inv));
    let slope2 = fp8_mul(slope, slope);
    let x3 = fp8_sub(&slope2, &fp8_mul_scalar(base_x, 2));
    let y3 = fp8_sub(&fp8_mul(slope, &fp8_sub(base_x, &x3)), base_y);
    let c5 = fp8_eq_v(out_x, &x3);
    let c6 = fp8_eq_v(out_y, &y3);
    c1 && c2 && c3 && c4 && c5 && c6
}

/// The curve membership equation `y^2 = x^3 + x a + b` over stored cells.
pub open spec fn on_curve_holds(x: Seq<int>, y: Seq<int>) -> bool {
    mulv(y, y) == addv(addv(mulv(mulv(x, x), x), mulv(x, curve_a_v())), curve_b_v())
}

/// Check curve membership of a stored point.
pub fn check_on_curve(x: &Fp8, y: &Fp8) -> (r: bool)
    requires
        fp8_wf(*x),
        fp8_wf(*y),
    ensures
        r <==> on_curve_holds(v8(*x), v8(*y)),
{
    let a8 = crate::affine::Affine::curve_a();
    let b8 = crate::affine::Affine::curve_b();
    let y2 = fp8_mul(y, y);
    let x2 = fp8_mul(x, x);
    let x3 = fp8_mul(&x2, x);
    let ax = fp8_mul(x, &a8);
    let rhs = fp8_add(&fp8_add(&x3, &ax), &b8);
    fp8_eq_v(&y2, &rhs)
}

/// The selected next accumulator coordinate: `acc + sel * (add - acc)`,
/// evaluated in the base field coefficient-wise.
pub open spec fn sel_combine(acc: Seq<int>, addc: Seq<int>, sel: int) -> Seq<int> {
    Seq::new(
        8,
        |k: int|
            (acc[k] + (sel * ((addc[k] - acc[k]) % (FP as int))) % (FP as int)) % (FP as int),
    )
}

/// On a boolean selector the transition polynomial moves the accumulator
/// exactly: it keeps the old coordinate when the bit is clear and replaces
/// it with the addition output when the bit is set.
pub proof fn lemma_sel_combine_selects(acc: Seq<int>, addc: Seq<int>, sel: int)
    requires
        acc.len() == 8,
        addc.len() == 8,
        forall|i: int| 0 <= i < 8 ==> 0 <= #[trigger] acc[i] < FP,
        forall|i: int| 0 <= i < 8 ==> 0 <= #[trigger] addc[i] < FP,
        sel == 0 || sel == 1,
    ensures
        sel == 0 ==> sel_combine(acc, addc, sel) == acc,
        sel == 1 ==> sel_combine(acc, addc, sel) == addc,
{
    let p = FP as int;
    assert forall|k: int| 0 <= k < 8 implies sel_combine(acc, addc, sel)[k] == if sel == 0 {
        acc[k]
    } else {
        addc[k]
    } by {
        let d = (addc[k] - acc[k]) % p;
        if sel == 0 {
            assert(0 * d == 0) by (nonlinear_arith);
            vstd::arithmetic::div_mod::lemma_small_mod(0nat, FP as nat);
            vstd::arithmetic::div_mod::lemma_small_mod(acc[k] as nat, FP as nat);
        } else {
            assert(1 * d == d) by (nonlinear_arith);
            vstd::arithmetic::div_mod::lemma_mod_twice(addc[k] - acc[k], p);
            vstd::arithmetic::div_mod::lemma_add_mod_noop_right(acc[k], addc[k] - acc[k], p);
            vstd::arithmetic::div_mod::lemma_small_mod(addc[k] as nat, FP as nat);
        }
    }
    if sel == 0 {
        assert(sel_combine(acc, addc, sel) =~= acc);
    } else {
        assert(sel_combine(acc, addc, sel) =~= addc);
    }
}

/// One row of the scalar multiplication constraint system, between a row
/// and its successor. The transition constraints apply only between
/// consecutive rows.
pub open spec fn scalar_mul_core_holds(
    row: Seq<u32>,
    next_row: Seq<u32>,
    offset: int,
    is_transition: bool,
) -> bool {
    let bit: int = row[offset + BIT_COL] as int;
    let inf: int = row[offset + ACC_INF_COL] as int;
    &&& (bit == 0 || bit == 1)
    &&& (inf == 0 || inf == 1)
    &&& (is_transition ==> {
        let ninf: int = next_row[offset + ACC_INF_COL] as int;
        &&& rv(next_row, offset + ACC_X_START) == sel_combine(
            rv(row, offset + ACC_X_START),
            rv(row, offset + ADD_X_START),
            bit,
        )
        &&& rv(next_row, offset + ACC_Y_START) == sel_combine(
            rv(row, offset + ACC_Y_START),
            rv(row, offset + ADD_Y_START),
            bit,
        )
        &&& rv(next_row, offset + BASE_X_START) == rv(row, offset + DOUBLE_X_START)
        &&& rv(next_row, offset + BASE_Y_START) == rv(row, offset + DOUBLE_Y_START)
        &&& (ninf == 0 || ninf == 1)
        &&& ninf == (inf * ((1 - bit) % (FP as int))) % (FP as int)
    })
    &&& (inf == 0 ==> add_block_holds(
        rv(row, offset + ACC_X_START),
        rv(row, offset + ACC_Y_START),
        rv(row, offset + BASE_X_START),
        rv(row, offset + BASE_Y_START),
        rv(row, offset + ADD_NUM_START),
        rv(row, offset + ADD_DEN_START),
        rv(row, offset + ADD_INV_START),
        rv(row, offset + ADD_SLOPE_START),
        rv(row, offset + ADD_X_START),
        rv(row, offset + ADD_Y_START),
    ))
    &&& (inf == 0 ==> on_curve_holds(rv(row, offset + ACC_X_START), rv(row, offset + ACC_Y_START)))
    &&& (inf == 0 ==> on_curve_holds(rv(row, offset + ADD_X_START), rv(row, offset + ADD_Y_START)))
    &&& double_block_holds(
        rv(row, offset + BASE_X_START),
        rv(row, offset + BASE_Y_START),
        rv(row, offset + DOUBLE_NUM_START),
        rv(row, offset + DOUBLE_DEN_START),
        rv(row, offset + DOUBLE_INV_START),
        rv(row, offset + DOUBLE_SLOPE_START),
        rv(row, offset + DOUBLE_X_START),
        rv(row, offset + DOUBLE_Y_START),
    )
    &&& on_curve_holds(rv(row, offset + BASE_X_START), rv(row, offset + BASE_Y_START))
    &&& on_curve_holds(rv(row, offset + DOUBLE_X_START), rv(row, offset + DOUBLE_Y_START))
}

/// Evaluate `acc + sel * (add - acc)` coefficient-wise.
pub fn sel_combine_exec(acc: &Fp8, addc: &Fp8, sel: u32) -> (r: Fp8)
    requires
        fp8_wf(*acc),
        fp8_wf(*addc),
        sel < FP,
    ensures
        fp8_wf(r),
        v8(r) == sel_combine(v8(*acc), v8(*addc), sel as int),
{
    let mut out: [u32; 8] = [0, 0, 0, 0, 0, 0, 0, 0];
    let mut k: usize = 0;
    while k < 8
        invariant
            k <= 8,
            fp8_wf(*acc),
            fp8_wf(*addc),
            sel < FP,
            forall|t: int|
                0 <= t < k ==> #[trigger] out[t] == sel_combine(v8(*acc), v8(*addc), sel as int)[t],
            forall|t: int| 0 <= t < k ==> out[t] < FP,
        decreases 8 - k,
    {
        out[k] = crate::basefield::fp_add(
            acc.c[k],
            crate::basefield::fp_mul(sel, crate::basefield::fp_sub(addc.c[k], acc.c[k])),
        );
        k += 1;
    }
    let r = Fp8::from_coeffs(out);
    proof {
        assert(v8(r) =~= sel_combine(v8(*acc), v8(*addc), sel as int));
    }
    r
}

/// Evaluate the per-row and transition constraints of the scalar
/// multiplication AIR on one row and its successor.
pub fn eval_scalar_mul_core(
    row: &Vec<u32>,
    next_row: &Vec<u32>,
    offset: usize,
    is_transition: bool,
) -> (r: bool)
    requires
        offset + NUM_COLUMNS <= row@.len(),
        offset + NUM_COLUMNS <= next_row@.len(),
        cells_wf(row@),
        cells_wf(next_row@),
    ensures
        r <==> scalar_mul_core_holds(row@, next_row@, offset as int, is_transition),
{
    let n1: usize = row.len();
    let n2: usize = next_row.len();
    let bit: u32 = row[offset + BIT_COL];
    let inf: u32 = row[offset + ACC_INF_COL];
    if !(bit == 0 || bit == 1) {
        return false;
    }
    if !(inf == 0 || inf == 1) {
        return false;
    }
    if is_transition {
        let ninf: u32 = next_row[offset + ACC_INF_COL];
        let acc_x = read_fp8(row, offset + ACC_X_START);
        let acc_y = read_fp8(row, offset + ACC_Y_START);
        let add_x = read_fp8(row, offset + ADD_X_START);
        let add_y = read_fp8(row, offset + ADD_Y_START);
        let next_acc_x = read_fp8(next_row, offset + ACC_X_START);
        let next_acc_y = read_fp8(next_row, offset + ACC_Y_START);
        if !fp8_eq_v(&next_acc_x, &sel_combine_exec(&acc_x, &add_x, bit)) {
            return false;
        }
        if !fp8_eq_v(&next_acc_y, &sel_combine_exec(&acc_y, &add_y, bit)) {
            return false;
        }
        let next_base_x = read_fp8(next_row, offset + BASE_X_START);
        let next_base_y = read_fp8(next_row, offset + BASE_Y_START);
        let dbl_x = read_fp8(row, offset + DOUBLE_X_START);
        let dbl_y = read_fp8(row, offset + DOUBLE_Y_START);
        if !fp8_eq_v(&next_base_x, &dbl_x) {
            return false;
        }
        if !fp8_eq_v(&next_base_y, &dbl_y) {
            return false;
        }
        if !(ninf == 0 || ninf == 1) {
            return false;
        }
        let expinf = crate::basefield::fp_mul(inf, crate::basefield::fp_sub(1, bit));
        if ninf != expinf {
            return false;
        }
    }
    if inf == 0 {
        let acc_x = read_fp8(row, offset + ACC_X_START);
        let acc_y = read_fp8(row, offset + ACC_Y_START);
        let base_x = read_fp8(row, offset + BASE_X_START);
        let base_y = read_fp8(row, offset + BASE_Y_START);
        let add_num = read_fp8(row, offset + ADD_NUM_START);
        let add_den = read_fp8(row, offset + ADD_DEN_START);
        let add_inv = read_fp8(row, offset + ADD_INV_START);
        let add_slope = read_fp8(row, offset + ADD_SLOPE_START);
        let add_x = read_fp8(row, offset + ADD_X_START);
        let add_y = read_fp8(row, offset + ADD_Y_START);
        let ok = check_add_block(
            &acc_x,
            &acc_y,
            &base_x,
            &base_y,
            &add_num,
            &add_den,
            &add_inv,
            &add_slope,
            &add_x,
            &add_y,
        );
        if !ok {
            return false;
        }
        if !check_on_curve(&acc_x, &acc_y) {
            return false;
        }
        if !check_on_curve(&add_x, &add_y) {
            return false;
        }
    }
    let base_x = read_fp8(row, offset + BASE_X_START);
    let base_y = read_fp8(row, offset + BASE_Y_START);
    let dbl_num = read_fp8(row, offset + DOUBLE_NUM_START);
    let dbl_den = read_fp8(row, offset + DOUBLE_DEN_START);
    let dbl_inv = read_fp8(row, offset + DOUBLE_INV_START);
    let dbl_slope = read_fp8(row, offset + DOUBLE_SLOPE_START);
    let dbl_x = read_fp8(row, offset + DOUBLE_X_START);
    let dbl_y = read_fp8(row, offset + DOUBLE_Y_START);
    let ok = check_double_block(
        &base_x,
        &base_y,
        &dbl_num,
        &dbl_den,
        &dbl_inv,
        &dbl_slope,
        &dbl_x,
        &dbl_y,
    );
    if !ok {
        return false;
    }
    if !check_on_curve(&base_x, &base_y) {
        return false;
    }
    if !check_on_curve(&dbl_x, &dbl_y) {
        return false;
    }
    true
}

/// A scalar multiplication witness trace, row-major.
#[derive(Clone, Debug)]
pub struct ScalarMulTrace {
    /// The cells, row-major with `NUM_COLUMNS` cells per row.
    pub trace: Vec<u32>,
}

/// The scalar multiplication AIR: its height is fixed at construction.
#[derive(Clone, Copy, Debug, PartialEq, Eq)]
pub struct ScalarMulAir {
    /// The trace height, a power of two.
    pub num_rows: usize,
}

impl ScalarMulAir {
    /// A new AIR instance of the given power-of-two height.
    pub fn new(num_rows: usize) -> (r: ScalarMulAir)
        requires
            vstd::arithmetic::power2::is_pow2(num_rows as int),
        ensures
            r.num_rows == num_rows,
    {
        ScalarMulAir { num_rows }
    }

    /// The trace width.
    pub fn width(&self) -> (r: usize)
        ensures
            r == NUM_COLUMNS,
    {
        NUM_COLUMNS
    }

    /// The number of public cells: the base point and the claimed result.
    pub fn num_public_values(&self) -> (r: usize)
        ensures
            r == PUBLIC_BASE_LIMBS + PUBLIC_OUT_LIMBS,
    {
        PUBLIC_BASE_LIMBS + PUBLIC_OUT_LIMBS
    }
}

/// Write a point's coordinates into a row.
pub fn write_point(row: &mut Vec<u32>, start: usize, point: &CircuitPoint)
    requires
        start + 16 <= old(row)@.len(),
        cp_wf(*point),
    ensures
        final(row)@.len() == old(row)@.len(),
        forall|i: int| 0 <= i < 8 ==> final(row)@[start + i] == point.x[i],
        forall|i: int| 0 <= i < 8 ==> final(row)@[start + 8 + i] == point.y[i],
        forall|i: int| start <= i < start + 16 ==> final(row)@[i] < FP,
        forall|i: int|
            0 <= i < final(row)@.len() && !(start <= i < start + 16) ==> final(row)@[i] == old(row)@[i],
{
    let n: usize = row.len();
    let mut i: usize = 0;
    while i < 8
        invariant
            i <= 8,
            start + 16 <= row@.len(),
            row@.len() <= usize::MAX,
            row@.len() == old(row)@.len(),
            cp_wf(*point),
            forall|t: int| 0 <= t < i ==> row@[start + t] == point.x[t],
            forall|t: int| 0 <= t < i ==> row@[start + 8 + t] == point.y[t],
            forall|t: int| start <= t < start + i ==> row@[t] < FP,
            forall|t: int| start + 8 <= t < start + 8 + i ==> row@[t] < FP,
            forall|t: int|
                0 <= t < row@.len() && !(start <= t < start + 16) ==> row@[t] == old(row)@[t],
        decreases 8 - i,
    {
        row.set(start + i, point.x[i]);
        row.set(start + 8 + i, point.y[i]);
        i += 1;
    }
}

/// Write an extension field element into a row.
pub fn write_base(row: &mut Vec<u32>, start: usize, value: &Fp8)
    requires
        start + 8 <= old(row)@.len(),
        fp8_wf(*value),
    ensures
        final(row)@.len() == old(row)@.len(),
        forall|i: int| 0 <= i < 8 ==> final(row)@[start + i] == value.c[i],
        forall|i: int| start <= i < start + 8 ==> final(row)@[i] < FP,
        forall|i: int| 0 <= i < final(row)@.len() && !(start <= i < start + 8) ==> final(row)@[i] == old(row)@[i],
{
    let n: usize = row.len();
    let mut i: usize = 0;
    while i < 8
        invariant
            i <= 8,
            start + 8 <= row@.len(),
            row@.len() <= usize::MAX,
            row@.len() == old(row)@.len(),
            fp8_wf(*value),
            forall|t: int| 0 <= t < i ==> row@[start + t] == value.c[t],
            forall|t: int| start <= t < start + i ==> row@[t] < FP,
            forall|t: int|
                0 <= t < row@.len() && !(start <= t < start + 8) ==> row@[t] == old(row)@[t],
        decreases 8 - i,
    {
        row.set(start + i, value.c[i]);
        i += 1;
    }
}

/// Fill the chord intermediates for adding `base` into `acc`: numerator,
/// denominator, its inverse, and the slope, checking that the stored
/// inverse really inverts the denominator. Fails exactly when the Fermat
/// inverse of the denominator is no inverse, that is when the denominator
/// is not invertible, which makes the row unsatisfiable.
pub fn fill_add_intermediates(
    row: &mut Vec<u32>,
    start: usize,
    acc: &CircuitPoint,
    base: &CircuitPoint,
) -> (ok: bool)
    requires
        start + 32 <= old(row)@.len(),
        cp_wf(*acc),
        cp_wf(*base),
    ensures
        final(row)@.len() == old(row)@.len(),
        forall|i: int|
            0 <= i < final(row)@.len() && !(start <= i < start + 32) ==> final(row)@[i] == old(row)@[i],
        forall|i: int| start <= i < start + 32 ==> final(row)@[i] < FP,
        ok <==> mulv(
            subv(cpv(*base).x, cpv(*acc).x),
            crate::basefield::fp8_inverse_v(subv(cpv(*base).x, cpv(*acc).x)),
        ) == fp8_one_v(),
        ok ==> rv(final(row)@, start as int) == subv(cpv(*base).y, cpv(*acc).y),
        ok ==> rv(final(row)@, start + 8) == subv(cpv(*base).x, cpv(*acc).x),
        ok ==> rv(final(row)@, start + 16) == crate::basefield::fp8_inverse_v(
            subv(cpv(*base).x, cpv(*acc).x),
        ),
        ok ==> rv(final(row)@, start + 24) == mulv(
            subv(cpv(*base).y, cpv(*acc).y),
            crate::basefield::fp8_inverse_v(subv(cpv(*base).x, cpv(*acc).x)),
        ),
{
    let n: usize = row.len();
    let acc_x = acc.x_as_basefield();
    let acc_y = acc.y_as_basefield();
    let base_x = base.x_as_basefield();
    let base_y = base.y_as_basefield();
    let add_num = fp8_sub(&base_y, &acc_y);
    let add_den = fp8_sub(&base_x, &acc_x);
    let add_inv = fp8_inverse(&add_den);
    let one = Fp8::one();
    proof {
        assert(v8(one) =~= fp8_one_v());
    }
    if !fp8_eq_v(&fp8_mul(&add_den, &add_inv), &one) {
        let zero = Fp8::zero();
        write_base(row, start, &zero);
        write_base(row, start + 8, &zero);
        write_base(row, start + 16, &zero);
        write_base(row, start + 24, &zero);
        return false;
    }
    let add_slope = fp8_mul(&add_num, &add_inv);
    write_base(row, start, &add_num);
    write_base(row, start + 8, &add_den);
    write_base(row, start + 16, &add_inv);
    write_base(row, start + 24, &add_slope);
    proof {
        assert(rv(row@, start as int) =~= v8(add_num));
        assert(rv(row@, start + 8) =~= v8(add_den));
        assert(rv(row@, start + 16) =~= v8(add_inv));
        assert(rv(row@, start + 24) =~= v8(add_slope));
    }
    true
}

/// Fill the tangent intermediates for doubling `base`: numerator,
/// denominator `2 y`, its inverse, and the slope, checking the stored
/// inverse. Fails exactly when `2 y` is not invertible.
pub fn fill_double_intermediates(row: &mut Vec<u32>, start: usize, base: &CircuitPoint) -> (ok:
    bool)
    requires
        start + 32 <= old(row)@.len(),
        cp_wf(*base),
    ensures
        final(row)@.len() == old(row)@.len(),
        forall|i: int|
            0 <= i < final(row)@.len() && !(start <= i < start + 32) ==> final(row)@[i] == old(row)@[i],
        forall|i: int| start <= i < start + 32 ==> final(row)@[i] < FP,
        ok <==> mulv(
            mulsv(cpv(*base).y, 2),
            crate::basefield::fp8_inverse_v(mulsv(cpv(*base).y, 2)),
        ) == fp8_one_v(),
        ok ==> rv(final(row)@, start as int) == addv(
            mulsv(mulv(cpv(*base).x, cpv(*base).x), 3),
            curve_a_v(),
        ),
        ok ==> rv(final(row)@, start + 8) == mulsv(cpv(*base).y, 2),
        ok ==> rv(final(row)@, start + 16) == crate::basefield::fp8_inverse_v(
            mulsv(cpv(*base).y, 2),
        ),
        ok ==> rv(final(row)@, start + 24) == mulv(
            addv(mulsv(mulv(cpv(*base).x, cpv(*base).x), 3), curve_a_v()),
            crate::basefield::fp8_inverse_v(mulsv(cpv(*base).y, 2)),
        ),
{
    let n: usize = row.len();
    let base_x = base.x_as_basefield();
    let base_y = base.y_as_basefield();
    let a8 = crate::affine::Affine::curve_a();
    let base_x2 = fp8_mul(&base_x, &base_x);
    let double_num = fp8_add(&fp8_mul_scalar(&base_x2, 3), &a8);
    let double_den = fp8_mul_scalar(&base_y, 2);
    let double_inv = fp8_inverse(&double_den);
    let one = Fp8::one();
    proof {
        assert(v8(one) =~= fp8_one_v());
    }
    if !fp8_eq_v(&fp8_mul(&double_den, &double_inv), &one) {
        let zero = Fp8::zero();
        write_base(row, start, &zero);
        write_base(row, start + 8, &zero);
        write_base(row, start + 16, &zero);
        write_base(row, start + 24, &zero);
        return false;
    }
    let double_slope = fp8_mul(&double_num, &double_inv);
    write_base(row, start, &double_num);
    write_base(row, start + 8, &double_den);
    write_base(row, start + 16, &double_inv);
    write_base(row, start + 24, &double_slope);
    proof {
        assert(rv(row@, start as int) =~= v8(double_num));
        assert(rv(row@, start + 8) =~= v8(double_den));
        assert(rv(row@, start + 16) =~= v8(double_inv));
        assert(rv(row@, start + 24) =~= v8(double_slope));
    }
    true
}

/// The smallest power of two at least `n`.
pub open spec fn pow2_ceil(n: int) -> int
    decreases n,
{
    if n <= 1 {
        1
    } else {
        2 * pow2_ceil((n + 1) / 2)
    }
}

/// `pow2_ceil` really is the smallest power of two at least `n`.
pub proof fn lemma_pow2_ceil_props(n: int)
    requires
        n >= 1,
    ensures
        vstd::arithmetic::power2::is_pow2(pow2_ceil(n)),
        pow2_ceil(n) >= n,
        n == 1 ==> pow2_ceil(n) == 1,
        n >= 2 ==> pow2_ceil(n) <= 2 * (n - 1),
    decreases n,
{
    reveal(vstd::arithmetic::power2::is_pow2);
    if n <= 1 {
    } else {
        let m = (n + 1) / 2;
        assert(1 <= m < n);
        lemma_pow2_ceil_props(m);
        assert((2 * pow2_ceil(m)) / 2 == pow2_ceil(m));
        assert(2 * m >= n);
        if m >= 2 {
            assert(pow2_ceil(n) <= 2 * (2 * (m - 1)));
            assert(2 * m <= n + 1);
        }
    }
}

/// The smallest power of two at least `n`.
pub fn next_pow2(n: usize) -> (r: usize)
    requires
        1 <= n <= 0x1000000,
    ensures
        r == pow2_ceil(n as int),
        vstd::arithmetic::power2::is_pow2(r as int),
        r >= n,
        r < 2 * n || r == 1,
        r <= 0x2000000,
    decreases n,
{
    proof {
        lemma_pow2_ceil_props(n as int);
    }
    if n <= 1 {
        1
    } else {
        2 * next_pow2((n + 1) / 2)
    }
}

/// The accumulator after one scalar-multiplication row: unchanged on a
/// clear bit, otherwise the running base is added, with the identity
/// absorbed.
pub open spec fn sm_next_acc_v(acc: crate::affine::PointV, base: crate::affine::PointV, bit: bool) -> crate::affine::PointV {
    if !bit {
        acc
    } else if acc.inf {
        base
    } else {
        crate::affine::add_v(acc, base)
    }
}

/// Whether one scalar-multiplication row can be witnessed: the running
/// base is finite and on the curve, its tangent denominator is
/// invertible, and when the accumulator is finite the chord to the base
/// is invertible and their sum is on the curve.
#[verifier::opaque]
pub open spec fn sm_row_feasible(acc: crate::affine::PointV, base: crate::affine::PointV) -> bool {
    &&& !base.inf
    &&& crate::affine::on_curve_v(base)
    &&& mulv(mulsv(base.y, 2), crate::basefield::fp8_inverse_v(mulsv(base.y, 2))) == fp8_one_v()
    &&& crate::affine::on_curve_v(crate::affine::double_v(base))
    &&& (!acc.inf ==> mulv(
        subv(base.x, acc.x),
        crate::basefield::fp8_inverse_v(subv(base.x, acc.x)),
    ) == fp8_one_v() && crate::affine::on_curve_v(acc) && crate::affine::on_curve_v(
        crate::affine::add_v(acc, base),
    ))
}

/// Whether rows `i` up to `n` of the scalar-multiplication schedule can
/// all be witnessed; bit positions beyond the input are clear.
pub open spec fn sm_build_ok(
    acc: crate::affine::PointV,
    base: crate::affine::PointV,
    bits: Seq<bool>,
    i: int,
    n: int,
) -> bool
    decreases n - i,
{
    if i >= n {
        true
    } else {
        let b = i < bits.len() && bits[i];
        sm_row_feasible(acc, base) && sm_build_ok(
            sm_next_acc_v(acc, base, b),
            crate::affine::double_v(base),
            bits,
            i + 1,
            n,
        )
    }
}

/// The accumulator entering row `q` of the scalar-multiplication
/// schedule: the identity at the start, then folded through the doubled
/// bases at set bits.
pub open spec fn sm_acc_at(base: crate::affine::PointV, bits: Seq<bool>, q: int) -> crate::affine::PointV
    decreases q,
{
    if q <= 0 {
        crate::affine::infinity_v()
    } else {
        let b = q - 1 < bits.len() && bits[q - 1];
        sm_next_acc_v(sm_acc_at(base, bits, q - 1), crate::msm::double_n_v(base, q - 1), b)
    }
}

/// Row `q` of a scalar-multiplication trace carries the scheduled running
/// points: the accumulator of the fold with its infinity flag, and the
/// `q`-fold doubling of the base.
#[verifier::opaque]
pub open spec fn sm_point_cells_ok(
    t: Seq<u32>,
    q: int,
    base: crate::affine::PointV,
    bits: Seq<bool>,
) -> bool {
    let row = t.subrange(q * (NUM_COLUMNS as int), q * (NUM_COLUMNS as int) + (NUM_COLUMNS as int));
    let accq = sm_acc_at(base, bits, q);
    let accn = sm_acc_at(base, bits, q + 1);
    let bq = q < bits.len() && bits[q];
    let plus = if accq.inf {
        crate::msm::double_n_v(base, q)
    } else {
        crate::affine::add_v(accq, crate::msm::double_n_v(base, q))
    };
    &&& rv(row, ACC_X_START as int) == accq.x
    &&& rv(row, ACC_Y_START as int) == accq.y
    &&& row[ACC_INF_COL as int] == (if accq.inf {
        1u32
    } else {
        0u32
    })
    &&& rv(row, BASE_X_START as int) == crate::msm::double_n_v(base, q).x
    &&& rv(row, BASE_Y_START as int) == crate::msm::double_n_v(base, q).y
    &&& rv(row, ADD_X_START as int) == plus.x
    &&& rv(row, ADD_Y_START as int) == plus.y
    &&& rv(row, DOUBLE_X_START as int) == crate::msm::double_n_v(base, q + 1).x
    &&& rv(row, DOUBLE_Y_START as int) == crate::msm::double_n_v(base, q + 1).y
    &&& !plus.inf
    &&& accn == (if bq {
        plus
    } else {
        accq
    })
}

/// A row whose cells hold the scheduled points, bit and intermediates of
/// one feasible scalar-multiplication step satisfies every per-row
/// constraint of the AIR.
#[verifier::rlimit(100)]
#[verifier::spinoff_prover]
proof fn lemma_sm_row_core(
    rw: Seq<u32>,
    acc: crate::affine::PointV,
    base: crate::affine::PointV,
    bit: bool,
)
    requires
        rw.len() == NUM_COLUMNS,
        crate::affine::pointv_wf(acc),
        crate::affine::pointv_wf(base),
        rv(rw, ACC_X_START as int) == acc.x,
        rv(rw, ACC_Y_START as int) == acc.y,
        rw[ACC_INF_COL as int] == (if acc.inf {
            1u32
        } else {
            0u32
        }),
        rv(rw, BASE_X_START as int) == base.x,
        rv(rw, BASE_Y_START as int) == base.y,
        rw[BIT_COL as int] == (if bit {
            1u32
        } else {
            0u32
        }),
        rv(rw, DOUBLE_X_START as int) == crate::affine::double_v(base).x,
        rv(rw, DOUBLE_Y_START as int) == crate::affine::double_v(base).y,
        rv(rw, DOUBLE_NUM_START as int) == addv(
            mulsv(mulv(base.x, base.x), 3),
            curve_a_v(),
        ),
        rv(rw, DOUBLE_DEN_START as int) == mulsv(base.y, 2),
        rv(rw, DOUBLE_INV_START as int) == crate::basefield::fp8_inverse_v(mulsv(base.y, 2)),
        rv(rw, DOUBLE_SLOPE_START as int) == mulv(
            addv(mulsv(mulv(base.x, base.x), 3), curve_a_v()),
            crate::basefield::fp8_inverse_v(mulsv(base.y, 2)),
        ),
        mulv(mulsv(base.y, 2), crate::basefield::fp8_inverse_v(mulsv(base.y, 2))) == fp8_one_v(),
        !base.inf,
        crate::affine::on_curve_v(base),
        crate::affine::on_curve_v(crate::affine::double_v(base)),
        !acc.inf ==> {
            &&& crate::affine::on_curve_v(acc)
            &&& rv(rw, ADD_X_START as int) == crate::affine::add_v(acc, base).x
            &&& rv(rw, ADD_Y_START as int) == crate::affine::add_v(acc, base).y
            &&& rv(rw, ADD_NUM_START as int) == subv(base.y, acc.y)
            &&& rv(rw, ADD_DEN_START as int) == subv(base.x, acc.x)
            &&& rv(rw, ADD_INV_START as int) == crate::basefield::fp8_inverse_v(
                subv(base.x, acc.x),
            )
            &&& rv(rw, ADD_SLOPE_START as int) == mulv(
                subv(base.y, acc.y),
                crate::basefield::fp8_inverse_v(subv(base.x, acc.x)),
            )
            &&& mulv(subv(base.x, acc.x), crate::basefield::fp8_inverse_v(subv(base.x, acc.x)))
                == fp8_one_v()
            &&& crate::affine::on_curve_v(crate::affine::add_v(acc, base))
        },
    ensures
        scalar_mul_core_holds(rw, rw, 0, false),
        !acc.inf ==> !crate::affine::add_v(acc, base).inf,
{
    let p = FP as int;
    vstd::arithmetic::div_mod::lemma_small_mod(0nat, FP as nat);
    vstd::arithmetic::div_mod::lemma_small_mod(1nat, FP as nat);
    // the base's tangent denominator is invertible, so its y-coordinate is
    // not zero and the tangent branch was taken
    assert(base.y != crate::basefield::fp8_zero_v()) by {
        if base.y == crate::basefield::fp8_zero_v() {
            assert(forall|i: int| 0 <= i < 8 ==> #[trigger] mulsv(base.y, 2)[i] == 0) by {
                assert(forall|i: int|
                    0 <= i < 8 ==> (#[trigger] base.y[i]) == crate::basefield::fp8_zero_v()[i]);
                assert(0int * 2 == 0) by (nonlinear_arith);
            }
            crate::basefield::lemma_mulv_zero_not_one(
                mulsv(base.y, 2),
                crate::basefield::fp8_inverse_v(mulsv(base.y, 2)),
            );
        }
    }
    let x2 = mulv(base.x, base.x);
    crate::basefield::lemma_addv3_is_mulsv3(x2);
    crate::basefield::lemma_addv2_is_mulsv2(base.y);
    let dnum = addv(mulsv(x2, 3), curve_a_v());
    let dslope = mulv(dnum, crate::basefield::fp8_inverse_v(mulsv(base.y, 2)));
    assert(addv(addv(addv(x2, x2), x2), curve_a_v()) == dnum);
    assert(addv(base.y, base.y) == mulsv(base.y, 2));
    let dv = crate::affine::double_v(base);
    crate::basefield::lemma_subv_twice(mulv(dslope, dslope), base.x);
    assert(dv.x == subv(mulv(dslope, dslope), mulsv(base.x, 2)));
    assert(dv.y == subv(mulv(dslope, subv(base.x, dv.x)), base.y));
    assert(double_block_holds(
        rv(rw, BASE_X_START as int),
        rv(rw, BASE_Y_START as int),
        rv(rw, DOUBLE_NUM_START as int),
        rv(rw, DOUBLE_DEN_START as int),
        rv(rw, DOUBLE_INV_START as int),
        rv(rw, DOUBLE_SLOPE_START as int),
        rv(rw, DOUBLE_X_START as int),
        rv(rw, DOUBLE_Y_START as int),
    ));
    if !acc.inf {
        assert(acc.x != base.x) by {
            if acc.x == base.x {
                assert(forall|i: int| 0 <= i < 8 ==> #[trigger] subv(base.x, acc.x)[i] == 0) by {
                    assert(forall|i: int| 0 <= i < 8 ==> (#[trigger] base.x[i]) == acc.x[i]);
                    vstd::arithmetic::div_mod::lemma_mod_self_0(p);
                }
                crate::basefield::lemma_mulv_zero_not_one(
                    subv(base.x, acc.x),
                    crate::basefield::fp8_inverse_v(subv(base.x, acc.x)),
                );
            }
        }
        assert(add_block_holds(
            rv(rw, ACC_X_START as int),
            rv(rw, ACC_Y_START as int),
            rv(rw, BASE_X_START as int),
            rv(rw, BASE_Y_START as int),
            rv(rw, ADD_NUM_START as int),
            rv(rw, ADD_DEN_START as int),
            rv(rw, ADD_INV_START as int),
            rv(rw, ADD_SLOPE_START as int),
            rv(rw, ADD_X_START as int),
            rv(rw, ADD_Y_START as int),
        ));
        assert(!crate::affine::add_v(acc, base).inf);
        assert(on_curve_holds(rv(rw, ACC_X_START as int), rv(rw, ACC_Y_START as int)));
        assert(on_curve_holds(rv(rw, ADD_X_START as int), rv(rw, ADD_Y_START as int)));
    }
    assert(on_curve_holds(rv(rw, BASE_X_START as int), rv(rw, BASE_Y_START as int)));
    assert(on_curve_holds(rv(rw, DOUBLE_X_START as int), rv(rw, DOUBLE_Y_START as int)));
    assert(scalar_mul_core_holds(rw, rw, 0, false));
}

/// Row `q` of a scalar-multiplication trace carries the scheduled bit.
#[verifier::opaque]
pub open spec fn sm_bit_cell_ok(t: Seq<u32>, q: int, bits: Seq<bool>) -> bool {
    t.subrange(q * (NUM_COLUMNS as int), q * (NUM_COLUMNS as int) + (NUM_COLUMNS as int))[
        BIT_COL as int] == (if q < bits.len() && bits[q] {
        1u32
    } else {
        0u32
    })
}

/// The first row of a scalar-multiplication trace holds the base point and
/// the identity accumulator.
#[verifier::opaque]
pub open spec fn sm_first_row_ok(t: Seq<u32>, base: crate::affine::PointV) -> bool {
    let row0 = t.subrange(0, NUM_COLUMNS as int);
    &&& rv(row0, BASE_X_START as int) == base.x
    &&& rv(row0, BASE_Y_START as int) == base.y
    &&& rv(row0, ACC_X_START as int) == crate::basefield::fp8_zero_v()
    &&& rv(row0, ACC_Y_START as int) == crate::basefield::fp8_zero_v()
    &&& row0[ACC_INF_COL as int] == 1
}

/// Row `q` of a scalar-multiplication trace of height `h` satisfies every
/// constraint of the AIR — the per-row blocks and, below the last row, the
/// transition to its successor.
#[verifier::opaque]
pub open spec fn sm_row_constrained(t: Seq<u32>, q: int, h: int) -> bool {
    scalar_mul_core_holds(
        t.subrange(q * (NUM_COLUMNS as int), q * (NUM_COLUMNS as int) + (NUM_COLUMNS as int)),
        t.subrange(
            (if q + 1 < h {
                q + 1
            } else {
                q
            }) * (NUM_COLUMNS as int),
            (if q + 1 < h {
                q + 1
            } else {
                q
            }) * (NUM_COLUMNS as int) + (NUM_COLUMNS as int),
        ),
        0,
        q + 1 < h,
    )
}

/// What a constrained row means, spelled out.
pub proof fn lemma_sm_row_constrained_meaning(t: Seq<u32>, q: int, h: int)
    requires
        sm_row_constrained(t, q, h),
    ensures
        scalar_mul_core_holds(
            t.subrange(q * (NUM_COLUMNS as int), q * (NUM_COLUMNS as int) + (NUM_COLUMNS as int)),
            t.subrange(
                (if q + 1 < h {
                    q + 1
                } else {
                    q
                }) * (NUM_COLUMNS as int),
                (if q + 1 < h {
                    q + 1
                } else {
                    q
                }) * (NUM_COLUMNS as int) + (NUM_COLUMNS as int),
            ),
            0,
            q + 1 < h,
        ),
{
    reveal(sm_row_constrained);
}

/// Row `q` of a scalar-multiplication trace satisfies its per-row blocks.
#[verifier::opaque]
pub open spec fn sm_row_sat(t: Seq<u32>, q: int) -> bool {
    scalar_mul_core_holds(
        t.subrange(q * (NUM_COLUMNS as int), q * (NUM_COLUMNS as int) + (NUM_COLUMNS as int)),
        t.subrange(q * (NUM_COLUMNS as int), q * (NUM_COLUMNS as int) + (NUM_COLUMNS as int)),
        0,
        false,
    )
}

/// Below the last row, the recorded running points and bit of two
/// consecutive rows satisfy the transition constraints between them.
#[verifier::rlimit(100)]
#[verifier::spinoff_prover]
proof fn lemma_sm_pair(t: Seq<u32>, q: int, h: int, base: crate::affine::PointV, bits: Seq<bool>)
    requires
        t.len() == h * (NUM_COLUMNS as int),
        0 <= q,
        q + 1 < h,
        cells_wf(t),
        sm_row_sat(t, q),
        sm_point_cells_ok(t, q, base, bits),
        sm_point_cells_ok(t, q + 1, base, bits),
        sm_bit_cell_ok(t, q, bits),
    ensures
        scalar_mul_core_holds(
            t.subrange(q * (NUM_COLUMNS as int), q * (NUM_COLUMNS as int) + (NUM_COLUMNS as int)),
            t.subrange(
                (q + 1) * (NUM_COLUMNS as int),
                (q + 1) * (NUM_COLUMNS as int) + (NUM_COLUMNS as int),
            ),
            0,
            true,
        ),
{
    reveal(sm_row_sat);
    reveal(sm_point_cells_ok);
    reveal(sm_bit_cell_ok);
    let cw = NUM_COLUMNS as int;
    let p = FP as int;
    vstd::arithmetic::mul::lemma_mul_inequality(q + 1, h, cw);
    vstd::arithmetic::mul::lemma_mul_inequality(q + 2, h, cw);
    vstd::arithmetic::mul::lemma_mul_is_distributive_add_other_way(cw, q, 1);
    vstd::arithmetic::mul::lemma_mul_is_distributive_add_other_way(cw, q + 1, 1);
    let row = t.subrange(q * cw, q * cw + cw);
    let nxt = t.subrange((q + 1) * cw, (q + 1) * cw + cw);
    let bq = q < bits.len() && bits[q];
    let bi: int = row[BIT_COL as int] as int;
    let inf: int = row[ACC_INF_COL as int] as int;
    vstd::arithmetic::div_mod::lemma_small_mod(0nat, FP as nat);
    vstd::arithmetic::div_mod::lemma_small_mod(1nat, FP as nat);
    let accq = sm_acc_at(base, bits, q);
    let accn = sm_acc_at(base, bits, q + 1);
    assert forall|i: int|
        0 <= i < 8 implies 0 <= #[trigger] rv(row, ACC_X_START as int)[i] < FP && 0 <= rv(
        row,
        ACC_Y_START as int,
    )[i] < FP && 0 <= rv(row, ADD_X_START as int)[i] < FP && 0 <= rv(
        row,
        ADD_Y_START as int,
    )[i] < FP by {
        assert(row[ACC_X_START + i] == t[q * cw + ACC_X_START + i]);
        assert(row[ACC_Y_START + i] == t[q * cw + ACC_Y_START + i]);
        assert(row[ADD_X_START + i] == t[q * cw + ADD_X_START + i]);
        assert(row[ADD_Y_START + i] == t[q * cw + ADD_Y_START + i]);
    }
    lemma_sel_combine_selects(
        rv(row, ACC_X_START as int),
        rv(row, ADD_X_START as int),
        bi,
    );
    lemma_sel_combine_selects(
        rv(row, ACC_Y_START as int),
        rv(row, ADD_Y_START as int),
        bi,
    );
    if bq {
        assert(rv(nxt, ACC_X_START as int) == rv(row, ADD_X_START as int));
        assert(rv(nxt, ACC_Y_START as int) == rv(row, ADD_Y_START as int));
        assert(!accn.inf);
        assert((inf * ((1 - bi) % p)) % p == 0) by {
            assert(inf * 0 == 0) by (nonlinear_arith);
        }
    } else {
        assert(accn == accq);
        assert(rv(nxt, ACC_X_START as int) == rv(row, ACC_X_START as int));
        assert(rv(nxt, ACC_Y_START as int) == rv(row, ACC_Y_START as int));
        assert((inf * ((1 - bi) % p)) % p == inf) by {
            assert(inf * 1 == inf) by (nonlinear_arith);
        }
    }
    assert(rv(nxt, BASE_X_START as int) == rv(row, DOUBLE_X_START as int));
    assert(rv(nxt, BASE_Y_START as int) == rv(row, DOUBLE_Y_START as int));
    assert(scalar_mul_core_holds(row, nxt, 0, true));
}

/// Build one row of the scalar-multiplication trace: the running points
/// and the scheduled bit in their columns, the addition output, the
/// doubled base, and the inversion intermediates. Succeeds exactly when
/// the row is feasible, and also returns the addition output.
#[verifier::rlimit(100)]
#[verifier::spinoff_prover]
fn build_sm_row(acc: &CircuitPoint, current: &CircuitPoint, bit: bool) -> (res: Result<
    (Vec<u32>, CircuitPoint),
    SchnorrError,
>)
    requires
        cp_wf(*acc),
        cp_wf(*current),
    ensures
        res.is_ok() <==> sm_row_feasible(cpv(*acc), cpv(*current)),
        res matches Err(e) ==> e == SchnorrError::InvalidWitness,
        res matches Ok(p) ==> {
            let rw = p.0@;
            let plus = if cpv(*acc).inf {
                cpv(*current)
            } else {
                crate::affine::add_v(cpv(*acc), cpv(*current))
            };
            &&& rw.len() == NUM_COLUMNS
            &&& (forall|j: int| 0 <= j < rw.len() ==> rw[j] < FP)
            &&& rv(rw, ACC_X_START as int) == cpv(*acc).x
            &&& rv(rw, ACC_Y_START as int) == cpv(*acc).y
            &&& rw[ACC_INF_COL as int] == (if cpv(*acc).inf {
                1u32
            } else {
                0u32
            })
            &&& rv(rw, BASE_X_START as int) == cpv(*current).x
            &&& rv(rw, BASE_Y_START as int) == cpv(*current).y
            &&& rw[BIT_COL as int] == (if bit {
                1u32
            } else {
                0u32
            })
            &&& rv(rw, ADD_X_START as int) == plus.x
            &&& rv(rw, ADD_Y_START as int) == plus.y
            &&& !plus.inf
            &&& rv(rw, DOUBLE_X_START as int) == crate::affine::double_v(cpv(*current)).x
            &&& rv(rw, DOUBLE_Y_START as int) == crate::affine::double_v(cpv(*current)).y
            &&& cp_wf(p.1)
            &&& cpv(p.1) == plus
            &&& scalar_mul_core_holds(rw, rw, 0, false)
        },
{
    if current.is_infinity {
        proof {
            assert(!sm_row_feasible(cpv(*acc), cpv(*current))) by {
                reveal(sm_row_feasible);
            }
        }
        return Err(SchnorrError::InvalidWitness);
    }
    let cur_aff = current.to_affine();
    if !cur_aff.is_on_curve() {
        proof {
            assert(!sm_row_feasible(cpv(*acc), cpv(*current))) by {
                reveal(sm_row_feasible);
            }
        }
        return Err(SchnorrError::InvalidWitness);
    }
    let base_double = current.double();
    if !base_double.to_affine().is_on_curve() {
        proof {
            assert(!sm_row_feasible(cpv(*acc), cpv(*current))) by {
                reveal(sm_row_feasible);
            }
        }
        return Err(SchnorrError::InvalidWitness);
    }
    if !acc.is_infinity {
        let acc_aff = acc.to_affine();
        if !acc_aff.is_on_curve() {
            proof {
                assert(!sm_row_feasible(cpv(*acc), cpv(*current))) by {
                    reveal(sm_row_feasible);
                }
            }
            return Err(SchnorrError::InvalidWitness);
        }
    }
    let mut row: Vec<u32> = Vec::new();
    let mut z: usize = 0;
    while z < NUM_COLUMNS
        invariant
            z <= NUM_COLUMNS,
            row@.len() == z,
            forall|i: int| 0 <= i < z ==> row@[i] == 0,
        decreases NUM_COLUMNS - z,
    {
        row.push(0);
        z += 1;
    }
    write_point(&mut row, ACC_X_START, acc);
    write_point(&mut row, BASE_X_START, current);
    let acc_plus = if acc.is_infinity {
        *current
    } else {
        let summed = acc.add(current);
        if !summed.to_affine().is_on_curve() {
            proof {
                assert(!sm_row_feasible(cpv(*acc), cpv(*current))) by {
                    reveal(sm_row_feasible);
                }
            }
            return Err(SchnorrError::InvalidWitness);
        }
        summed
    };
    write_point(&mut row, ADD_X_START, &acc_plus);
    write_point(&mut row, DOUBLE_X_START, &base_double);
    let acc_inf = acc.is_infinity;
    row.set(ACC_INF_COL, if acc_inf {
        1
    } else {
        0
    });
    if !acc_inf {
        let ok = fill_add_intermediates(&mut row, ADD_NUM_START, acc, current);
        if !ok {
            proof {
                assert(!sm_row_feasible(cpv(*acc), cpv(*current))) by {
                    reveal(sm_row_feasible);
                }
            }
            return Err(SchnorrError::InvalidWitness);
        }
    }
    let ok = fill_double_intermediates(&mut row, DOUBLE_NUM_START, current);
    if !ok {
        proof {
            assert(!sm_row_feasible(cpv(*acc), cpv(*current))) by {
                reveal(sm_row_feasible);
            }
        }
        return Err(SchnorrError::InvalidWitness);
    }
    row.set(BIT_COL, if bit {
        1
    } else {
        0
    });
    proof {
        assert(sm_row_feasible(cpv(*acc), cpv(*current))) by {
            reveal(sm_row_feasible);
        }
        let accv = cpv(*acc);
        let curv = cpv(*current);
        assert(rv(row@, ACC_X_START as int) =~= accv.x);
        assert(rv(row@, ACC_Y_START as int) =~= accv.y);
        assert(rv(row@, BASE_X_START as int) =~= curv.x);
        assert(rv(row@, BASE_Y_START as int) =~= curv.y);
        assert(rv(row@, ADD_X_START as int) =~= cpv(acc_plus).x);
        assert(rv(row@, ADD_Y_START as int) =~= cpv(acc_plus).y);
        assert(rv(row@, DOUBLE_X_START as int) =~= cpv(base_double).x);
        assert(rv(row@, DOUBLE_Y_START as int) =~= cpv(base_double).y);
        assert(rv(row@, DOUBLE_NUM_START as int) == addv(
            mulsv(mulv(curv.x, curv.x), 3),
            curve_a_v(),
        ));
        assert(rv(row@, DOUBLE_DEN_START as int) == mulsv(curv.y, 2));
        assert(rv(row@, DOUBLE_INV_START as int) == crate::basefield::fp8_inverse_v(
            mulsv(curv.y, 2),
        ));
        assert(rv(row@, DOUBLE_SLOPE_START as int) == mulv(
            addv(mulsv(mulv(curv.x, curv.x), 3), curve_a_v()),
            crate::basefield::fp8_inverse_v(mulsv(curv.y, 2)),
        ));
        if !acc_inf {
            assert(rv(row@, ADD_NUM_START as int) == subv(curv.y, accv.y));
            assert(rv(row@, ADD_DEN_START as int) == subv(curv.x, accv.x));
            assert(rv(row@, ADD_INV_START as int) == crate::basefield::fp8_inverse_v(
                subv(curv.x, accv.x),
            ));
            assert(rv(row@, ADD_SLOPE_START as int) == mulv(
                subv(curv.y, accv.y),
                crate::basefield::fp8_inverse_v(subv(curv.x, accv.x)),
            ));
        }
        lemma_sm_row_core(row@, accv, curv, bit);
    }
    Ok((row, acc_plus))
}

/// One appended row, stated over the loop's running points.
proof fn lemma_sm_append_step(
    old_trace: Seq<u32>,
    row_snap: Seq<u32>,
    t: Seq<u32>,
    i: int,
    base: crate::affine::PointV,
    bits: Seq<bool>,
    accv: crate::affine::PointV,
    curv: crate::affine::PointV,
    b: bool,
)
    requires
        t == old_trace + row_snap,
        old_trace.len() == i * (NUM_COLUMNS as int),
        row_snap.len() == NUM_COLUMNS as int,
        i >= 0,
        cells_wf(old_trace),
        forall|j: int| 0 <= j < row_snap.len() ==> row_snap[j] < FP,
        forall|q: int| 0 <= q < i ==> #[trigger] sm_bit_cell_ok(old_trace, q, bits),
        forall|q: int| 0 <= q < i ==> #[trigger] sm_point_cells_ok(old_trace, q, base, bits),
        forall|q: int| 0 <= q < i ==> #[trigger] sm_row_sat(old_trace, q),
        i > 0 ==> sm_first_row_ok(old_trace, base),
        accv == sm_acc_at(base, bits, i),
        curv == crate::msm::double_n_v(base, i),
        b == (i < bits.len() && bits[i]),
        rv(row_snap, ACC_X_START as int) == accv.x,
        rv(row_snap, ACC_Y_START as int) == accv.y,
        row_snap[ACC_INF_COL as int] == (if accv.inf {
            1u32
        } else {
            0u32
        }),
        rv(row_snap, BASE_X_START as int) == curv.x,
        rv(row_snap, BASE_Y_START as int) == curv.y,
        row_snap[BIT_COL as int] == (if b {
            1u32
        } else {
            0u32
        }),
        rv(row_snap, ADD_X_START as int) == (if accv.inf {
            curv
        } else {
            crate::affine::add_v(accv, curv)
        }).x,
        rv(row_snap, ADD_Y_START as int) == (if accv.inf {
            curv
        } else {
            crate::affine::add_v(accv, curv)
        }).y,
        !(if accv.inf {
            curv
        } else {
            crate::affine::add_v(accv, curv)
        }).inf,
        rv(row_snap, DOUBLE_X_START as int) == crate::affine::double_v(curv).x,
        rv(row_snap, DOUBLE_Y_START as int) == crate::affine::double_v(curv).y,
        scalar_mul_core_holds(row_snap, row_snap, 0, false),
    ensures
        cells_wf(t),
        forall|q: int| 0 <= q < i + 1 ==> #[trigger] sm_bit_cell_ok(t, q, bits),
        forall|q: int| 0 <= q < i + 1 ==> #[trigger] sm_point_cells_ok(t, q, base, bits),
        forall|q: int| 0 <= q < i + 1 ==> #[trigger] sm_row_sat(t, q),
        sm_first_row_ok(t, base),
        sm_acc_at(base, bits, i + 1) == (if b {
            if accv.inf {
                curv
            } else {
                crate::affine::add_v(accv, curv)
            }
        } else {
            accv
        }),
        crate::msm::double_n_v(base, i + 1) == crate::affine::double_v(curv),
{
    let cw = NUM_COLUMNS as int;
    assert(sm_acc_at(base, bits, i + 1) == sm_next_acc_v(accv, curv, b));
    assert(crate::msm::double_n_v(base, i + 1) == crate::affine::double_v(curv));
    assert(cells_wf(t)) by {
        assert forall|j: int| 0 <= j < t.len() implies t[j] < FP by {
            if j < old_trace.len() {
                assert(t[j] == old_trace[j]);
            } else {
                assert(t[j] == row_snap[j - old_trace.len()]);
            }
        }
    }
    assert forall|q: int| 0 <= q < i + 1 implies #[trigger] sm_point_cells_ok(t, q, base, bits) by {
        reveal(sm_point_cells_ok);
        if q < i {
            assert(sm_point_cells_ok(old_trace, q, base, bits));
            assert(t.subrange(q * cw, q * cw + cw) =~= old_trace.subrange(q * cw, q * cw + cw));
        } else {
            assert(t.subrange(q * cw, q * cw + cw) =~= row_snap);
        }
    }
    assert forall|q: int| 0 <= q < i + 1 implies #[trigger] sm_bit_cell_ok(t, q, bits) by {
        reveal(sm_bit_cell_ok);
        if q < i {
            assert(sm_bit_cell_ok(old_trace, q, bits));
            assert(t.subrange(q * cw, q * cw + cw) =~= old_trace.subrange(q * cw, q * cw + cw));
        } else {
            assert(t.subrange(q * cw, q * cw + cw) =~= row_snap);
        }
    }
    assert forall|q: int| 0 <= q < i + 1 implies #[trigger] sm_row_sat(t, q) by {
        reveal(sm_row_sat);
        if q < i {
            assert(sm_row_sat(old_trace, q));
            assert(t.subrange(q * cw, q * cw + cw) =~= old_trace.subrange(q * cw, q * cw + cw));
        } else {
            assert(t.subrange(q * cw, q * cw + cw) =~= row_snap);
        }
    }
    if i == 0 {
        assert(sm_first_row_ok(t, base)) by {
            reveal(sm_first_row_ok);
            assert(t.subrange(0, cw) =~= row_snap);
            assert(accv == crate::affine::infinity_v());
            assert(curv == base);
        }
    } else {
        assert(sm_first_row_ok(t, base)) by {
            reveal(sm_first_row_ok);
            assert(sm_first_row_ok(old_trace, base));
            assert(t.subrange(0, cw) =~= old_trace.subrange(0, cw));
        }
    }
}

/// Build the witness trace of one scalar multiplication: one row per
/// scalar bit, padded with zero bits to a power-of-two height. Succeeds
/// exactly when every row of the schedule can be witnessed; the built
/// rows provably satisfy every constraint of the AIR.
#[verifier::rlimit(100)]
pub fn build_scalar_mul_trace(base: &CircuitPoint, scalar_bits: &[bool]) -> (r: Result<
    ScalarMulTrace,
    SchnorrError,
>)
    requires
        cp_wf(*base),
        1 <= scalar_bits@.len() <= 0x100000,
    ensures
        r.is_ok() <==> sm_build_ok(
            crate::affine::infinity_v(),
            cpv(*base),
            scalar_bits@,
            0,
            pow2_ceil(scalar_bits@.len() as int),
        ),
        r matches Err(e) ==> e == SchnorrError::InvalidWitness,
        r matches Ok(t) ==> {
            let h = t.trace@.len() as int / (NUM_COLUMNS as int);
            &&& cells_wf(t.trace@)
            &&& t.trace@.len() as int % (NUM_COLUMNS as int) == 0
            &&& h == pow2_ceil(scalar_bits@.len() as int)
            &&& vstd::arithmetic::power2::is_pow2(h)
            &&& h >= scalar_bits@.len()
            &&& forall|q: int| 0 <= q < h ==> #[trigger] sm_bit_cell_ok(t.trace@, q, scalar_bits@)
            &&& forall|q: int|
                0 <= q < h ==> #[trigger] sm_point_cells_ok(t.trace@, q, cpv(*base), scalar_bits@)
            &&& forall|q: int| 0 <= q < h ==> #[trigger] sm_row_constrained(t.trace@, q, h)
            &&& sm_first_row_ok(t.trace@, cpv(*base))
        },
{
    let mut acc = CircuitPoint::infinity();
    let mut current = *base;
    let num_rows = next_pow2(scalar_bits.len());
    let ghost n = num_rows as int;
    let ghost all_ok = sm_build_ok(
        crate::affine::infinity_v(),
        cpv(*base),
        scalar_bits@,
        0,
        n,
    );
    proof {
        assert(cpv(acc) =~= crate::affine::infinity_v());
        assert(crate::msm::double_n_v(cpv(*base), 0) == cpv(*base));
    }
    let mut trace: Vec<u32> = Vec::new();
    let mut row_idx: usize = 0;
    while row_idx < num_rows
        invariant
            row_idx <= num_rows,
            num_rows == n,
            n == pow2_ceil(scalar_bits@.len() as int),
            num_rows <= 0x2000000,
            num_rows >= scalar_bits@.len(),
            cp_wf(acc),
            cp_wf(current),
            cp_wf(*base),
            trace@.len() == row_idx * NUM_COLUMNS,
            cells_wf(trace@),
            all_ok == sm_build_ok(
                crate::affine::infinity_v(),
                cpv(*base),
                scalar_bits@,
                0,
                n,
            ),
            all_ok == sm_build_ok(cpv(acc), cpv(current), scalar_bits@, row_idx as int, n),
            forall|q: int| 0 <= q < row_idx ==> #[trigger] sm_bit_cell_ok(trace@, q, scalar_bits@),
            forall|q: int|
                0 <= q < row_idx ==> #[trigger] sm_point_cells_ok(trace@, q, cpv(*base), scalar_bits@),
            forall|q: int| 0 <= q < row_idx ==> #[trigger] sm_row_sat(trace@, q),
            row_idx > 0 ==> sm_first_row_ok(trace@, cpv(*base)),
            cpv(acc) == sm_acc_at(cpv(*base), scalar_bits@, row_idx as int),
            cpv(current) == crate::msm::double_n_v(cpv(*base), row_idx as int),
        decreases num_rows - row_idx,
    {
        let bit = if row_idx < scalar_bits.len() {
            scalar_bits[row_idx]
        } else {
            false
        };
        let ghost spec_b = (row_idx as int) < scalar_bits@.len() && scalar_bits@[row_idx as int];
        proof {
            assert(bit == spec_b);
            assert(sm_build_ok(cpv(acc), cpv(current), scalar_bits@, row_idx as int, n) == (
            sm_row_feasible(cpv(acc), cpv(current)) && sm_build_ok(
                sm_next_acc_v(cpv(acc), cpv(current), spec_b),
                crate::affine::double_v(cpv(current)),
                scalar_bits@,
                row_idx as int + 1,
                n,
            )));
        }
        let rowres = build_sm_row(&acc, &current, bit);
        let (row, acc_plus) = match rowres {
            Ok(p) => p,
            Err(_) => {
                proof {
                    assert(!all_ok);
                }
                return Err(SchnorrError::InvalidWitness);
            },
        };
        let ghost old_trace = trace@;
        let ghost row_snap = row@;
        let mut row = row;
        trace.append(&mut row);
        proof {
            lemma_sm_append_step(
                old_trace,
                row_snap,
                trace@,
                row_idx as int,
                cpv(*base),
                scalar_bits@,
                cpv(acc),
                cpv(current),
                spec_b,
            );
        }
        if bit {
            acc = acc_plus;
        }
        current = current.double();
        row_idx += 1;
        proof {
            assert((row_idx - 1) * NUM_COLUMNS + NUM_COLUMNS == row_idx * NUM_COLUMNS)
                by (nonlinear_arith);
        }
    }
    proof {
        assert(sm_build_ok(cpv(acc), cpv(current), scalar_bits@, n, n));
        assert((num_rows * NUM_COLUMNS) as int % (NUM_COLUMNS as int) == 0 && (num_rows
            * NUM_COLUMNS) as int / (NUM_COLUMNS as int) == num_rows as int) by {
            vstd::arithmetic::div_mod::lemma_fundamental_div_mod_converse(
                (num_rows * NUM_COLUMNS) as int,
                NUM_COLUMNS as int,
                num_rows as int,
                0,
            );
        }
        assert forall|q: int| 0 <= q < n implies #[trigger] sm_row_constrained(trace@, q, n) by {
            reveal(sm_row_constrained);
            assert(sm_row_sat(trace@, q));
            if q + 1 < n {
                lemma_sm_pair(trace@, q, n, cpv(*base), scalar_bits@);
            } else {
                reveal(sm_row_sat);
            }
        }
    }
    Ok(ScalarMulTrace { trace })
}

/// Build the generator-multiplication trace for the `s` scalar of a
/// signature witness: 256 rows over the fixed generator. Succeeds exactly
/// when every row of that schedule can be witnessed.
pub fn build_generator_mul_trace(witness: &crate::signature_witness::SignatureWitness) -> (r:
    Result<ScalarMulTrace, SchnorrError>)
    requires
        crate::scalar_arithmetic::cs_wf(witness.s),
    ensures
        ({
            let sb = crate::scalarfield::scalar_bits(
                crate::scalar_arithmetic::cs_val(witness.s.limbs) % crate::scalarfield::modulus(),
            );
            &&& (r.is_ok() <==> sm_build_ok(
                crate::affine::infinity_v(),
                crate::affine::generator_v(),
                sb,
                0,
                256,
            ))
            &&& (r matches Ok(t) ==> {
                &&& cells_wf(t.trace@)
                &&& t.trace@.len() == 256 * NUM_COLUMNS
                &&& (forall|q: int| 0 <= q < 256 ==> #[trigger] sm_bit_cell_ok(t.trace@, q, sb))
                &&& (forall|q: int|
                    0 <= q < 256 ==> #[trigger] sm_point_cells_ok(
                        t.trace@,
                        q,
                        crate::affine::generator_v(),
                        sb,
                    ))
                &&& (forall|q: int| 0 <= q < 256 ==> #[trigger] sm_row_constrained(t.trace@, q, 256))
                &&& sm_first_row_ok(t.trace@, crate::affine::generator_v())
            })
        }),
        r matches Err(e) ==> e == SchnorrError::InvalidWitness,
{
    let s_field = witness.s.to_scalar_field();
    let s_bits = crate::point_ops::scalar_to_bits(&s_field);
    let generator = CircuitPoint::from_affine(&crate::affine::Affine::generator());
    proof {
        assert(s_bits@.len() == 256);
        assert(cpv(generator) == crate::affine::generator_v());
        crate::schnorr_air::lemma_pow2_ceil_256();
    }
    build_scalar_mul_trace(&generator, s_bits.as_slice())
}

} // verus!
