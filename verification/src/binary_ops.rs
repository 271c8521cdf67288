use vstd::prelude::*;

use crate::array::{
    gather_index, lemma_pos_prod_pos_dims, lemma_src_index_bounds, ok_shape, prod, src_index,
    strides_of, ArrSpec, NdArray, MAX_ELEMS, MAX_RANK,
};
use crate::error::EvalError;
use crate::op::OpKind;

verus! {

/// Elementwise addition with broadcasting.
#[derive(Clone, Copy, Debug, PartialEq, Eq, Structural)]
pub struct AddOp;

/// Elementwise subtraction with broadcasting.
#[derive(Clone, Copy, Debug, PartialEq, Eq, Structural)]
pub struct SubOp;

/// Elementwise multiplication with broadcasting.
#[derive(Clone, Copy, Debug, PartialEq, Eq, Structural)]
pub struct MulOp;

/// Elementwise division with broadcasting.
#[derive(Clone, Copy, Debug, PartialEq, Eq, Structural)]
pub struct DivOp;

/// In-place addition: updates its first operand; gradients flow as for
/// [`AddOp`].
#[derive(Clone, Copy, Debug, PartialEq, Eq, Structural)]
pub struct InplaceAddOp;

/// In-place subtraction: updates its first operand; gradients flow as for
/// [`SubOp`].
#[derive(Clone, Copy, Debug, PartialEq, Eq, Structural)]
pub struct InplaceSubOp;

/// In-place multiplication: updates its first operand and therefore
/// propagates no gradient to either operand (the original value the
/// product rule needs is destroyed).
#[derive(Clone, Copy, Debug, PartialEq, Eq, Structural)]
pub struct InplaceMulOp;

/// In-place division: updates its first operand and therefore propagates no
/// gradient to either operand.
#[derive(Clone, Copy, Debug, PartialEq, Eq, Structural)]
pub struct InplaceDivOp;

/// Reduces a gradient of the broadcast shape back down to an operand's
/// shape, summing over every broadcast axis; a no-op delegate when no
/// broadcast occurred.
#[derive(Clone, Copy, Debug, PartialEq, Eq, Structural)]
pub struct PreprocessBinOpGrad;

/// Re-expands a reduced gradient back up to the broadcast shape: the exact
/// inverse of [`PreprocessBinOpGrad`], needed for higher-order
/// differentiation; a no-op delegate when no broadcast occurred.
#[derive(Clone, Copy, Debug, PartialEq, Eq, Structural)]
pub struct PreprocessBinOpGradGrad;

/// The four elementwise binary operations of the catalog.
#[derive(Clone, Copy, Debug, PartialEq, Eq, Structural)]
pub enum BinKind {
    Add,
    Sub,
    Mul,
    Div,
}

/// One elementwise application.  Division is Euclidean (the remainder is
/// never negative), standing in for the reference quotient on the integer
/// carrier.
pub open spec fn bin_val(k: BinKind, a: int, b: int) -> int {
    match k {
        BinKind::Add => a + b,
        BinKind::Sub => a - b,
        BinKind::Mul => a * b,
        BinKind::Div => a / b,
    }
}

/// Whether one elementwise application is defined and representable.
pub open spec fn bin_el_ok(k: BinKind, a: int, b: int) -> bool {
    &&& (k is Div ==> b != 0)
    &&& i64::MIN <= bin_val(k, a, b) <= i64::MAX
}

/// Applies one elementwise operation, reporting division by zero and results
/// that do not fit in `i64`.
pub fn apply_bin(k: BinKind, a: i64, b: i64) -> (r: Result<i64, EvalError>)
    ensures
        r is Ok <==> bin_el_ok(k, a as int, b as int),
        r matches Ok(v) ==> v as int == bin_val(k, a as int, b as int),
        r matches Err(e) ==> (e == EvalError::DivisionByZero <==> k is Div && b == 0)
            && (e == EvalError::DivisionByZero || e == EvalError::ValueOutOfRange),
{
    match k {
        BinKind::Add => match a.checked_add(b) {
            Some(v) => Ok(v),
            None => Err(EvalError::ValueOutOfRange),
        },
        BinKind::Sub => match a.checked_sub(b) {
            Some(v) => Ok(v),
            None => Err(EvalError::ValueOutOfRange),
        },
        BinKind::Mul => match a.checked_mul(b) {
            Some(v) => Ok(v),
            None => Err(EvalError::ValueOutOfRange),
        },
        BinKind::Div => {
            if b == 0 {
                Err(EvalError::DivisionByZero)
            } else {
                match a.checked_div_euclid(b) {
                    Some(v) => Ok(v),
                    None => Err(EvalError::ValueOutOfRange),
                }
            }
        },
    }
}

/// NumPy-style compatibility of two operand shapes: equal rank with each
/// axis agreeing or having size one on either side, or a rank-0 scalar on
/// either side.
pub open spec fn bin_compat(a: Seq<usize>, b: Seq<usize>) -> bool {
    ||| a.len() == 0
    ||| b.len() == 0
    ||| (a.len() == b.len() && forall|i: int|
        0 <= i < a.len() ==> a[i] == b[i] || a[i] == 1 || b[i] == 1)
}

/// The broadcast result shape of two compatible operand shapes.
pub open spec fn bin_shape(a: Seq<usize>, b: Seq<usize>) -> Seq<usize> {
    if a.len() == 0 {
        b
    } else if b.len() == 0 {
        a
    } else {
        Seq::new(a.len(), |i: int| if a[i] != 1 { a[i] } else { b[i] })
    }
}

/// Flat index into an operand of shape `s` for flat index `f` of the
/// broadcast result of shape `os`; a rank-0 scalar always contributes its
/// single element.
pub open spec fn operand_src(os: Seq<usize>, s: Seq<usize>, f: int) -> int {
    if s.len() == 0 {
        0
    } else {
        src_index(os, s, f)
    }
}

/// Whether every elementwise application of the broadcast operation is
/// defined and representable.
pub open spec fn bin_all_ok(k: BinKind, a: ArrSpec, b: ArrSpec) -> bool {
    let os = bin_shape(a.shape, b.shape);
    forall|f: int|
        0 <= f < prod(os) ==> bin_el_ok(
            k,
            a.data[operand_src(os, a.shape, f)] as int,
            b.data[operand_src(os, b.shape, f)] as int,
        )
}

/// The broadcast elementwise result.
pub open spec fn bin_result(k: BinKind, a: ArrSpec, b: ArrSpec) -> ArrSpec {
    let os = bin_shape(a.shape, b.shape);
    ArrSpec {
        shape: os,
        data: Seq::new(
            prod(os) as nat,
            |f: int|
                bin_val(
                    k,
                    a.data[operand_src(os, a.shape, f)] as int,
                    b.data[operand_src(os, b.shape, f)] as int,
                ) as i64,
        ),
    }
}

/// Elementwise binary operation with NumPy-style broadcasting.
///
/// Succeeds exactly when the operand shapes are compatible, the broadcast
/// shape is within the size limits, and every elementwise application is
/// defined and representable.
#[verifier::loop_isolation(false)]
pub fn elementwise(k: BinKind, a: &NdArray, b: &NdArray) -> (r: Result<NdArray, EvalError>)
    requires
        a.wf(),
        b.wf(),
    ensures
        r is Ok <==> bin_compat(a@.shape, b@.shape) && ok_shape(bin_shape(a@.shape, b@.shape))
            && bin_all_ok(k, a@, b@),
        r matches Ok(out) ==> out@ == bin_result(k, a@, b@) && out.wf(),
        !(bin_compat(a@.shape, b@.shape) && ok_shape(bin_shape(a@.shape, b@.shape))) ==> r == Err::<
            NdArray,
            EvalError,
        >(EvalError::ShapeMismatch),
        r == Err::<NdArray, EvalError>(EvalError::DivisionByZero) ==> k is Div,
{
    let ghost gos = bin_shape(a@.shape, b@.shape);
    let ra = a.shape.len();
    let rb = b.shape.len();
    let mut os: Vec<usize> = Vec::new();
    if ra == 0 {
        os = b.shape.clone();
    } else if rb == 0 {
        os = a.shape.clone();
    } else {
        if ra != rb {
            return Err(EvalError::ShapeMismatch);
        }
        let mut i: usize = 0;
        while i < ra
            invariant
                0 <= i <= ra,
                os@.len() == i,
                forall|j: int| 0 <= j < i ==> a@.shape[j] == b@.shape[j] || a@.shape[j] == 1
                    || b@.shape[j] == 1,
                forall|j: int|
                    0 <= j < i ==> os@[j] == (if a@.shape[j] != 1 {
                        a@.shape[j]
                    } else {
                        b@.shape[j]
                    }),
            decreases ra - i,
        {
            let da = a.shape[i];
            let db = b.shape[i];
            if da != db && da != 1 && db != 1 {
                return Err(EvalError::ShapeMismatch);
            }
            os.push(if da != 1 {
                da
            } else {
                db
            });
            i = i + 1;
        }
    }
    proof {
        assert(bin_compat(a@.shape, b@.shape));
        assert(os@ =~= gos);
    }
    let total_or = crate::array::checked_prod(&os);
    let total: usize = match total_or {
        Some(p) => p as usize,
        None => {
            return Err(EvalError::ShapeMismatch);
        },
    };
    proof {
        assert(gos.len() <= MAX_RANK);
    }
    if total == 0 {
        let out = NdArray { shape: os, data: Vec::new() };
        proof {
            assert(out@.data =~= bin_result(k, a@, b@).data);
            assert(out@ == bin_result(k, a@, b@));
        }
        return Ok(out);
    }
    proof {
        lemma_pos_prod_pos_dims(gos);
        assert forall|i: int| 0 <= i < ra implies a@.shape[i] >= 1 by {
            if a@.shape[i] != 1 {
                assert(gos[i] == a@.shape[i]);
            }
        };
        assert forall|i: int| 0 <= i < rb implies b@.shape[i] >= 1 by {
            if b@.shape[i] != 1 {
                assert(gos[i] == b@.shape[i]);
            }
        };
    }
    let ost = strides_of(&os, total);
    let mut ast: Vec<usize> = Vec::new();
    let mut bst: Vec<usize> = Vec::new();
    if ra > 0 {
        ast = strides_of(&a.shape, a.data.len());
    }
    if rb > 0 {
        bst = strides_of(&b.shape, b.data.len());
    }
    let mut data: Vec<i64> = Vec::new();
    let mut f: usize = 0;
    while f < total
        invariant
            0 <= f <= total,
            data@.len() == f,
            forall|j: int| 0 <= j < f ==> bin_el_ok(
                k,
                a@.data[operand_src(gos, a@.shape, j)] as int,
                b@.data[operand_src(gos, b@.shape, j)] as int,
            ),
            forall|j: int| 0 <= j < f ==> data@[j] as int == bin_val(
                k,
                a@.data[operand_src(gos, a@.shape, j)] as int,
                b@.data[operand_src(gos, b@.shape, j)] as int,
            ),
        decreases total - f,
    {
        let ia: usize = if ra == 0 {
            0
        } else {
            gather_index(&os, &a.shape, &ost, &ast, f)
        };
        let ib: usize = if rb == 0 {
            0
        } else {
            gather_index(&os, &b.shape, &ost, &bst, f)
        };
        proof {
            assert(ia as int == operand_src(gos, a@.shape, f as int));
            assert(ib as int == operand_src(gos, b@.shape, f as int));
            assert(ia < a@.data.len());
            assert(ib < b@.data.len());
        }
        let va = a.data[ia];
        let vb = b.data[ib];
        match apply_bin(k, va, vb) {
            Ok(v) => {
                data.push(v);
            },
            Err(e) => {
                proof {
                    assert(!bin_el_ok(
                        k,
                        a@.data[operand_src(gos, a@.shape, f as int)] as int,
                        b@.data[operand_src(gos, b@.shape, f as int)] as int,
                    ));
                    assert(!bin_all_ok(k, a@, b@));
                }
                return Err(e);
            },
        }
        f = f + 1;
    }
    let out = NdArray { shape: os, data };
    proof {
        assert(out@.data =~= bin_result(k, a@, b@).data);
        assert(out@ == bin_result(k, a@, b@));
    }
    Ok(out)
}

pub proof fn lemma_prod_mono(xs: Seq<usize>, gs: Seq<usize>)
    requires
        xs.len() == gs.len(),
        forall|i: int| 0 <= i < xs.len() ==> xs[i] <= gs[i],
    ensures
        prod(xs) <= prod(gs),
    decreases xs.len(),
{
    if xs.len() > 0 {
        assert(forall|i: int| 0 <= i < xs.skip(1).len() ==> xs.skip(1)[i] <= gs.skip(1)[i]);
        lemma_prod_mono(xs.skip(1), gs.skip(1));
        crate::array::lemma_prod_nonneg(xs.skip(1));
        crate::array::lemma_prod_nonneg(gs.skip(1));
        assert(xs[0] * prod(xs.skip(1)) <= gs[0] * prod(gs.skip(1))) by (nonlinear_arith)
            requires
                0 <= xs[0] <= gs[0],
                0 <= prod(xs.skip(1)) <= prod(gs.skip(1)),
        ;
    }
}

/// A reducible shape with the same element count as the gradient shape is
/// that shape: nothing is actually folded.
pub proof fn lemma_reducible_equal_prod(xs: Seq<usize>, gs: Seq<usize>)
    requires
        xs.len() == gs.len(),
        forall|i: int| 0 <= i < xs.len() ==> xs[i] == gs[i] || xs[i] == 1,
        prod(xs) == prod(gs),
        prod(gs) > 0,
    ensures
        xs =~= gs,
    decreases xs.len(),
{
    if xs.len() > 0 {
        crate::array::lemma_pos_prod_pos_dims(gs);
        crate::array::lemma_prod_skip_unfold(gs, 0);
        assert(gs.skip(0) =~= gs);
        assert(gs[0] * prod(gs.skip(1)) > 0);
        crate::array::lemma_prod_nonneg(gs.skip(1));
        assert(prod(gs.skip(1)) > 0) by (nonlinear_arith)
            requires
                gs[0] * prod(gs.skip(1)) > 0,
                prod(gs.skip(1)) >= 0,
        ;
        if xs[0] != gs[0] {
            // xs[0] == 1 < gs[0]; the tail product cannot make up the deficit
            assert(xs[0] == 1);
            assert(gs[0] >= 2);
            assert(forall|i: int|
                0 <= i < xs.skip(1).len() ==> xs.skip(1)[i] == gs.skip(1)[i] || xs.skip(1)[i] == 1);
            assert(forall|i: int| 0 <= i < xs.skip(1).len() ==> xs.skip(1)[i] <= gs.skip(1)[i]);
            lemma_prod_mono(xs.skip(1), gs.skip(1));
            assert(prod(xs) == 1 * prod(xs.skip(1)));
            assert(gs[0] * prod(gs.skip(1)) > prod(gs.skip(1))) by (nonlinear_arith)
                requires
                    gs[0] >= 2,
                    prod(gs.skip(1)) > 0,
            ;
            assert(false);
        } else {
            assert(prod(xs.skip(1)) == prod(gs.skip(1))) by (nonlinear_arith)
                requires
                    xs[0] == gs[0],
                    xs[0] * prod(xs.skip(1)) == gs[0] * prod(gs.skip(1)),
                    gs[0] > 0,
            ;
            assert(forall|i: int|
                0 <= i < xs.skip(1).len() ==> xs.skip(1)[i] == gs.skip(1)[i] || xs.skip(1)[i] == 1);
            lemma_reducible_equal_prod(xs.skip(1), gs.skip(1));
            assert(forall|i: int| 1 <= i < xs.len() ==> xs[i] == xs.skip(1)[i - 1]);
            assert(forall|i: int| 1 <= i < gs.len() ==> gs[i] == gs.skip(1)[i - 1]);
            assert(xs =~= gs);
        }
    }
}

/// With every dimension's product equal to one, every dimension is one.
pub proof fn lemma_prod_one_all_ones(gs: Seq<usize>)
    requires
        prod(gs) == 1,
    ensures
        forall|i: int| 0 <= i < gs.len() ==> gs[i] == 1,
{
    crate::array::lemma_pos_prod_pos_dims(gs);
    assert forall|i: int| 0 <= i < gs.len() implies gs[i] == 1 by {
        if gs[i] >= 2 {
            crate::array::lemma_prod_skip_le(gs, i);
            crate::array::lemma_prod_skip_unfold(gs, i);
            crate::array::lemma_prod_pos(gs.take(i));
            crate::array::lemma_prod_pos(gs.skip(i + 1));
            assert(prod(gs) >= 2) by (nonlinear_arith)
                requires
                    prod(gs) == prod(gs.take(i)) * (gs[i] * prod(gs.skip(i + 1))),
                    prod(gs.take(i)) >= 1,
                    gs[i] >= 2,
                    prod(gs.skip(i + 1)) >= 1,
            ;
        }
    }
}

/// Scatter-summing an array onto its own shape copies it: the first `k`
/// cells hold their element, the rest still hold zero.
pub proof fn lemma_reduce_fold_id(gy: Seq<i64>, gs: Seq<usize>, k: nat)
    requires
        gy.len() == prod(gs),
        k <= gy.len(),
    ensures
        forall|t: int|
            0 <= t < prod(gs) ==> #[trigger] reduce_fold(gy, gs, gs, k)[t] == if t < k {
                gy[t] as int
            } else {
                0int
            },
    decreases k,
{
    lemma_reduce_fold_len(gy, gs, gs, k);
    if k > 0 {
        lemma_reduce_fold_id(gy, gs, (k - 1) as nat);
        lemma_reduce_fold_len(gy, gs, gs, (k - 1) as nat);
        crate::array::lemma_pos_prod_pos_dims(gs);
        crate::array::lemma_src_index_identity(gs, k - 1);
    }
}

/// Broadcast round trip, reduction first: when the operand shape has the
/// same element count as the gradient shape (so no axis is actually
/// folded), reducing a gradient to the operand shape and broadcasting the
/// result back reproduces the gradient exactly.  Reduction and expansion
/// are mutual inverses on this subspace; when an axis is genuinely folded
/// the round trip instead scales the gradient by the folded element count.
pub proof fn lemma_broadcast_round_trip(g: ArrSpec, xs: Seq<usize>)
    requires
        g.wf(),
        reducible(xs, g.shape),
        prod(xs) == prod(g.shape),
    ensures
        reduce_fits(g, xs),
        expand_vals(reduce_result(g, xs), g.shape) =~= g.data,
{
    let gs = g.shape;
    let eff = eff_target(xs, gs);
    lemma_reduce_fold_len(g.data, gs, eff, g.data.len());
    if xs.len() == 0 {
        lemma_ones_shape_prod(gs.len());
        lemma_prod_one_all_ones(gs);
        assert(eff =~= gs);
    } else if prod(gs) > 0 {
        lemma_reducible_equal_prod(xs, gs);
    }
    if prod(gs) == 0 {
        assert(expand_vals(reduce_result(g, xs), gs).len() == 0);
        assert(g.data.len() == 0);
    } else {
        assert(eff =~= gs);
        assert(eff == gs);
        lemma_reduce_fold_id(g.data, gs, g.data.len());
        let r = reduce_result(g, xs);
        assert(forall|t: int| 0 <= t < prod(gs) ==> reduce_vals(g, xs)[t] == g.data[t] as int);
        assert(reduce_fits(g, xs));
        assert(forall|t: int| 0 <= t < prod(gs) ==> r.data[t] == g.data[t]);
        // expansion back up reads each cell straight through
        assert(eff_target(r.shape, gs) == eff);
        crate::array::lemma_pos_prod_pos_dims(gs);
        assert forall|f: int| 0 <= f < prod(gs) implies expand_vals(r, gs)[f] == g.data[f] by {
            crate::array::lemma_src_index_identity(gs, f);
            assert(expand_vals(r, gs)[f] == r.data[src_index(gs, gs, f)]);
        };
    }
}

/// Broadcast round trip, expansion first: broadcasting an operand-shaped
/// array up to a target of the same element count and reducing it back
/// reproduces the array exactly.
pub proof fn lemma_expand_round_trip(h: ArrSpec, ts: Seq<usize>)
    requires
        h.wf(),
        reducible(h.shape, ts),
        prod(ts) == prod(h.shape),
    ensures
        reduce_fits(expand_result(h, ts), h.shape),
        Seq::new(
            reduce_vals(expand_result(h, ts), h.shape).len(),
            |t: int| reduce_vals(expand_result(h, ts), h.shape)[t] as i64,
        ) =~= h.data,
{
    let hs = h.shape;
    let e = expand_result(h, ts);
    let eff = eff_target(hs, ts);
    let reff = eff_target(hs, e.shape);
    assert(e.shape == ts);
    lemma_reduce_fold_len(e.data, ts, reff, e.data.len());
    crate::array::lemma_prod_nonneg(ts);
    if hs.len() == 0 {
        lemma_ones_shape_prod(ts.len());
        lemma_prod_one_all_ones(ts);
        assert(eff =~= ts);
        assert(reff =~= ts);
    } else if prod(ts) > 0 {
        lemma_reducible_equal_prod(hs, ts);
        assert(eff =~= ts);
        assert(reff =~= ts);
    }
    if prod(ts) == 0 {
        assert(h.data.len() == 0);
        assert(reduce_vals(e, hs).len() == 0);
    } else {
        assert(eff == ts && reff == ts);
        crate::array::lemma_pos_prod_pos_dims(ts);
        // the expansion is an element-for-element copy
        assert forall|f: int| 0 <= f < prod(ts) implies e.data[f] == h.data[f] by {
            crate::array::lemma_src_index_identity(ts, f);
        };
        lemma_reduce_fold_id(e.data, ts, e.data.len());
        assert(forall|t: int| 0 <= t < prod(ts) ==> reduce_vals(e, hs)[t] == e.data[t] as int);
        assert(reduce_fits(e, hs));
    }
}

/// A shape of `n` axes of size one.
pub open spec fn ones_shape(n: nat) -> Seq<usize> {
    Seq::new(n, |i: int| 1usize)
}

pub proof fn lemma_ones_shape_prod(n: nat)
    ensures
        prod(ones_shape(n)) == 1,
    decreases n,
{
    if n > 0 {
        assert(ones_shape(n).skip(1) =~= ones_shape((n - 1) as nat));
        lemma_ones_shape_prod((n - 1) as nat);
    }
}

/// Whether a gradient of shape `gs` can be reduced to the operand shape
/// `xs`: a rank-0 operand absorbs everything, otherwise ranks agree and every
/// folded axis has operand size one.
pub open spec fn reducible(xs: Seq<usize>, gs: Seq<usize>) -> bool {
    ||| xs.len() == 0
    ||| (xs.len() == gs.len() && forall|i: int| 0 <= i < xs.len() ==> xs[i] == gs[i] || xs[i] == 1)
}

/// The operand shape padded to the gradient's rank: a rank-0 operand acts as
/// an all-ones shape.
pub open spec fn eff_target(xs: Seq<usize>, gs: Seq<usize>) -> Seq<usize> {
    if xs.len() == 0 {
        ones_shape(gs.len())
    } else {
        xs
    }
}

pub open spec fn zero_seq(n: nat) -> Seq<int> {
    Seq::new(n, |i: int| 0int)
}

/// Scatter-sum of the first `k` elements of a gradient of shape `gs` into a
/// zero-initialised target of shape `xs`: each element is added to the cell
/// its index projects to, so a target cell ends up holding the sum of the
/// gradient over all folded axes.
pub open spec fn reduce_fold(gy: Seq<i64>, gs: Seq<usize>, xs: Seq<usize>, k: nat) -> Seq<int>
    decreases k,
{
    if k == 0 {
        zero_seq(prod(xs) as nat)
    } else {
        let p = reduce_fold(gy, gs, xs, (k - 1) as nat);
        let t = src_index(gs, xs, k - 1);
        if 0 <= t < p.len() {
            p.update(t, p[t] + gy[k - 1])
        } else {
            p
        }
    }
}

pub proof fn lemma_reduce_fold_len(gy: Seq<i64>, gs: Seq<usize>, xs: Seq<usize>, k: nat)
    ensures
        reduce_fold(gy, gs, xs, k).len() == prod(xs) as nat,
    decreases k,
{
    if k > 0 {
        lemma_reduce_fold_len(gy, gs, xs, (k - 1) as nat);
    }
}

/// Every partial scatter-sum is bounded by the number of elements folded in.
pub proof fn lemma_reduce_fold_bound(gy: Seq<i64>, gs: Seq<usize>, xs: Seq<usize>, k: nat)
    ensures
        forall|t: int|
            0 <= t < reduce_fold(gy, gs, xs, k).len() ==> -(k * 0x8000_0000_0000_0000)
                <= #[trigger] reduce_fold(gy, gs, xs, k)[t] <= k * 0x8000_0000_0000_0000,
    decreases k,
{
    lemma_reduce_fold_len(gy, gs, xs, k);
    if k > 0 {
        lemma_reduce_fold_bound(gy, gs, xs, (k - 1) as nat);
        lemma_reduce_fold_len(gy, gs, xs, (k - 1) as nat);
        assert((k - 1) * 0x8000_0000_0000_0000 + 0x8000_0000_0000_0000 == k
            * 0x8000_0000_0000_0000) by (nonlinear_arith);
    }
}

/// The complete reduction of a gradient to an operand shape.
pub open spec fn reduce_vals(g: ArrSpec, xs: Seq<usize>) -> Seq<int> {
    reduce_fold(g.data, g.shape, eff_target(xs, g.shape), g.data.len())
}

/// Whether the reduction is shape-wise possible.
pub open spec fn reduce_ok(g: ArrSpec, xs: Seq<usize>) -> bool {
    reducible(xs, g.shape) && prod(xs) <= MAX_ELEMS as int
}

/// Whether every reduced element is representable.
pub open spec fn reduce_fits(g: ArrSpec, xs: Seq<usize>) -> bool {
    forall|t: int|
        0 <= t < reduce_vals(g, xs).len() ==> i64::MIN <= #[trigger] reduce_vals(g, xs)[t]
            <= i64::MAX
}

/// The reduced array itself.
pub open spec fn reduce_result(g: ArrSpec, xs: Seq<usize>) -> ArrSpec {
    ArrSpec {
        shape: xs,
        data: Seq::new(reduce_vals(g, xs).len(), |t: int| reduce_vals(g, xs)[t] as i64),
    }
}

/// Reduces a gradient of shape `g.shape` down to the operand shape `xs` by
/// summing over every axis on which the operand has size one (all axes, for
/// a rank-0 operand).
#[verifier::loop_isolation(false)]
pub fn reduce_to(g: &NdArray, xs: &Vec<usize>) -> (r: Result<NdArray, EvalError>)
    requires
        g.wf(),
    ensures
        r is Ok <==> reduce_ok(g@, xs@) && reduce_fits(g@, xs@),
        r matches Ok(out) ==> out@ == reduce_result(g@, xs@) && out.wf(),
        !reduce_ok(g@, xs@) ==> r == Err::<NdArray, EvalError>(EvalError::ShapeMismatch),
        reduce_ok(g@, xs@) && !reduce_fits(g@, xs@) ==> r == Err::<NdArray, EvalError>(
            EvalError::ValueOutOfRange,
        ),
{
    let ghost gs = g@.shape;
    let rank = g.shape.len();
    let mut eff: Vec<usize> = Vec::new();
    if xs.len() == 0 {
        let mut i: usize = 0;
        while i < rank
            invariant
                0 <= i <= rank,
                eff@.len() == i,
                forall|j: int| 0 <= j < i ==> eff@[j] == 1usize,
            decreases rank - i,
        {
            eff.push(1);
            i = i + 1;
        }
        proof {
            assert(eff@ =~= eff_target(xs@, gs));
        }
    } else {
        if xs.len() != rank {
            return Err(EvalError::ShapeMismatch);
        }
        let mut i: usize = 0;
        while i < rank
            invariant
                0 <= i <= rank,
                forall|j: int| 0 <= j < i ==> xs@[j] == gs[j] || xs@[j] == 1,
            decreases rank - i,
        {
            let d = xs[i];
            if d != g.shape[i] && d != 1 {
                return Err(EvalError::ShapeMismatch);
            }
            i = i + 1;
        }
        eff = xs.clone();
    }
    proof {
        assert(reducible(xs@, gs));
        assert(eff@ == eff_target(xs@, gs));
    }
    let total: usize = match crate::array::checked_prod(&eff) {
        Some(p) => p as usize,
        None => {
            proof {
                if xs@.len() == 0 {
                    lemma_ones_shape_prod(gs.len());
                }
                assert(prod(xs@) > MAX_ELEMS as int);
            }
            return Err(EvalError::ShapeMismatch);
        },
    };
    proof {
        if xs@.len() == 0 {
            lemma_ones_shape_prod(gs.len());
        }
        assert(reduce_ok(g@, xs@));
    }
    let n = g.data.len();
    let mut acc: Vec<i128> = Vec::new();
    let mut t0: usize = 0;
    while t0 < total
        invariant
            0 <= t0 <= total,
            acc@.len() == t0,
            forall|j: int| 0 <= j < t0 ==> acc@[j] == 0i128,
        decreases total - t0,
    {
        acc.push(0);
        t0 = t0 + 1;
    }
    proof {
        lemma_reduce_fold_len(g@.data, gs, eff@, 0);
        assert(forall|j: int|
            0 <= j < total ==> acc@[j] as int == reduce_fold(g@.data, gs, eff@, 0)[j]);
    }
    if n > 0 {
        proof {
            lemma_pos_prod_pos_dims(gs);
            assert(forall|i: int| 0 <= i < eff@.len() ==> eff@[i] >= 1);
        }
        let gst = strides_of(&g.shape, n);
        let est = strides_of(&eff, total);
        let mut f: usize = 0;
        while f < n
            invariant
                0 <= f <= n,
                acc@.len() == total,
                forall|j: int|
                    0 <= j < total ==> acc@[j] as int == reduce_fold(g@.data, gs, eff@, f as nat)[j],
            decreases n - f,
        {
            proof {
                lemma_reduce_fold_bound(g@.data, gs, eff@, f as nat);
                lemma_reduce_fold_len(g@.data, gs, eff@, f as nat);
                lemma_src_index_bounds(gs, eff@, f as int);
            }
            let t = gather_index(&g.shape, &eff, &gst, &est, f);
            let cur = acc[t];
            acc[t] = cur + (g.data[f] as i128);
            f = f + 1;
            proof {
                assert(forall|j: int|
                    0 <= j < total ==> acc@[j] as int == reduce_fold(g@.data, gs, eff@, f as nat)[j]);
            }
        }
    }
    let ghost vals = reduce_vals(g@, xs@);
    proof {
        assert(n == 0 ==> forall|j: int|
            0 <= j < total ==> acc@[j] as int == reduce_fold(g@.data, gs, eff@, 0)[j]);
        assert(forall|j: int| 0 <= j < total ==> acc@[j] as int == vals[j]);
        lemma_reduce_fold_len(g@.data, gs, eff@, g@.data.len());
    }
    let mut data: Vec<i64> = Vec::new();
    let mut t: usize = 0;
    while t < total
        invariant
            0 <= t <= total,
            data@.len() == t,
            forall|j: int| 0 <= j < t ==> i64::MIN <= #[trigger] vals[j] <= i64::MAX,
            forall|j: int| 0 <= j < t ==> data@[j] as int == vals[j],
        decreases total - t,
    {
        let v = acc[t];
        if v < i64::MIN as i128 || v > i64::MAX as i128 {
            proof {
                assert(!reduce_fits(g@, xs@));
            }
            return Err(EvalError::ValueOutOfRange);
        }
        data.push(v as i64);
        t = t + 1;
    }
    let out = NdArray { shape: xs.clone(), data };
    proof {
        assert(reduce_fits(g@, xs@));
        assert(out@.data =~= reduce_result(g@, xs@).data);
        assert(out@ == reduce_result(g@, xs@));
        assert(prod(xs@) >= 0) by {
            crate::array::lemma_prod_nonneg(xs@);
        };
        if xs@.len() == 0 {
        }
        assert(out.wf());
    }
    Ok(out)
}

/// Whether an array of shape `hs` can be broadcast up to the target shape
/// `ts` within the size limits.
pub open spec fn expandable(hs: Seq<usize>, ts: Seq<usize>) -> bool {
    reducible(hs, ts) && prod(ts) <= MAX_ELEMS as int && ts.len() <= MAX_RANK
}

/// The broadcast of `g` to target shape `ts`: each target element reads the
/// source element its index projects to.
pub open spec fn expand_vals(g: ArrSpec, ts: Seq<usize>) -> Seq<i64> {
    Seq::new(prod(ts) as nat, |f: int| g.data[src_index(ts, eff_target(g.shape, ts), f)])
}

/// The expanded array itself.
pub open spec fn expand_result(g: ArrSpec, ts: Seq<usize>) -> ArrSpec {
    ArrSpec { shape: ts, data: expand_vals(g, ts) }
}

/// Broadcasts an array up to the target shape `ts`, repeating it along every
/// axis on which it has size one (all axes, for a rank-0 array).  The exact
/// inverse of [`reduce_to`] when no axis is actually folded.
#[verifier::loop_isolation(false)]
pub fn broadcast_to(g: &NdArray, ts: &Vec<usize>) -> (r: Result<NdArray, EvalError>)
    requires
        g.wf(),
    ensures
        r is Ok <==> expandable(g@.shape, ts@),
        r matches Ok(out) ==> out@ == expand_result(g@, ts@) && out.wf(),
        r is Err ==> r == Err::<NdArray, EvalError>(EvalError::ShapeMismatch),
{
    let ghost hs = g@.shape;
    let rank = ts.len();
    let mut eff: Vec<usize> = Vec::new();
    if g.shape.len() == 0 {
        let mut i: usize = 0;
        while i < rank
            invariant
                0 <= i <= rank,
                eff@.len() == i,
                forall|j: int| 0 <= j < i ==> eff@[j] == 1usize,
            decreases rank - i,
        {
            eff.push(1);
            i = i + 1;
        }
        proof {
            assert(eff@ =~= eff_target(hs, ts@));
        }
    } else {
        if g.shape.len() != rank {
            return Err(EvalError::ShapeMismatch);
        }
        let mut i: usize = 0;
        while i < rank
            invariant
                0 <= i <= rank,
                forall|j: int| 0 <= j < i ==> hs[j] == ts@[j] || hs[j] == 1,
            decreases rank - i,
        {
            let d = g.shape[i];
            if d != ts[i] && d != 1 {
                return Err(EvalError::ShapeMismatch);
            }
            i = i + 1;
        }
        eff = g.shape.clone();
    }
    if rank > MAX_RANK {
        return Err(EvalError::ShapeMismatch);
    }
    proof {
        assert(reducible(hs, ts@));
        assert(eff@ == eff_target(hs, ts@));
    }
    let total: usize = match crate::array::checked_prod(ts) {
        Some(p) => p as usize,
        None => {
            return Err(EvalError::ShapeMismatch);
        },
    };
    let mut data: Vec<i64> = Vec::new();
    if total > 0 {
        proof {
            lemma_pos_prod_pos_dims(ts@);
            assert(forall|i: int| 0 <= i < eff@.len() ==> eff@[i] >= 1);
            if hs.len() == 0 {
                lemma_ones_shape_prod(ts@.len());
            }
        }
        let ghost ep = prod(eff@);
        let etotal: usize = match crate::array::checked_prod(&eff) {
            Some(p) => p as usize,
            None => {
                proof {
                    // the effective shape's product is the source's element
                    // count, which is within the limits
                    assert(false);
                }
                return Err(EvalError::ShapeMismatch);
            },
        };
        let tst = strides_of(ts, total);
        let est = strides_of(&eff, etotal);
        let mut f: usize = 0;
        while f < total
            invariant
                0 <= f <= total,
                data@.len() == f,
                forall|j: int| 0 <= j < f ==> data@[j] == g@.data[src_index(ts@, eff@, j)],
            decreases total - f,
        {
            proof {
                lemma_src_index_bounds(ts@, eff@, f as int);
            }
            let s = gather_index(ts, &eff, &tst, &est, f);
            data.push(g.data[s]);
            f = f + 1;
        }
    }
    let out = NdArray { shape: ts.clone(), data };
    proof {
        assert(out@.data =~= expand_vals(g@, ts@));
        assert(out@ == expand_result(g@, ts@));
        crate::array::lemma_prod_nonneg(ts@);
        assert(out.wf());
    }
    Ok(out)
}

/// Multi-consumer gradient summation at the value level (law): when one
/// node's value feeds an addition twice — as in `y = x + x` — the summed
/// gradient contribution is exactly twice the seed gradient, elementwise.
pub proof fn lemma_double_contribution(a: ArrSpec)
    requires
        a.wf(),
        bin_all_ok(BinKind::Add, a, a),
    ensures
        bin_result(BinKind::Add, a, a).shape == a.shape,
        forall|f: int|
            0 <= f < prod(a.shape) ==> #[trigger] bin_result(BinKind::Add, a, a).data[f] as int
                == 2 * (a.data[f] as int),
{
    assert(bin_shape(a.shape, a.shape) =~= a.shape);
    crate::array::lemma_prod_nonneg(a.shape);
    assert forall|f: int| 0 <= f < prod(a.shape) implies #[trigger] bin_result(
        BinKind::Add,
        a,
        a,
    ).data[f] as int == 2 * (a.data[f] as int) by {
        crate::array::lemma_pos_prod_pos_dims(a.shape);
        crate::array::lemma_src_index_identity(a.shape, f);
        assert(operand_src(bin_shape(a.shape, a.shape), a.shape, f) == f);
        assert(bin_el_ok(
            BinKind::Add,
            a.data[operand_src(bin_shape(a.shape, a.shape), a.shape, f)] as int,
            a.data[operand_src(bin_shape(a.shape, a.shape), a.shape, f)] as int,
        ));
    };
}


impl AddOp {
    /// The op's name.
    pub fn name(&self) -> (r: &'static str) {
        "Add"
    }

    /// Forward computation, as the op catalog's dispatcher runs it.
    pub fn compute(&self, xs: &Vec<NdArray>) -> (r: Result<
        crate::op::ComputeVal,
        EvalError,
    >)
        requires
            forall|i: int| 0 <= i < xs@.len() ==> (#[trigger] xs@[i]).wf(),
        ensures
            r is Ok <==> crate::op::op_compute_spec(
                OpKind::Add(*self),
                xs@.map_values(|x: NdArray| x@),
            ) is Some,
            r matches Ok(crate::op::ComputeVal::Value(v)) ==> crate::op::op_compute_spec(
                OpKind::Add(*self),
                xs@.map_values(|x: NdArray| x@),
            ) == Some(crate::op::CompSpec::Val(v@)) && v.wf(),
            r matches Ok(crate::op::ComputeVal::Delegate(d)) ==> crate::op::op_compute_spec(
                OpKind::Add(*self),
                xs@.map_values(|x: NdArray| x@),
            ) == Some(crate::op::CompSpec::Delg(d as int)) && (d as int) < xs@.len(),
    {
        crate::op::compute_node(&OpKind::Add(*self), xs)
    }
}


impl SubOp {
    /// The op's name.
    pub fn name(&self) -> (r: &'static str) {
        "Sub"
    }

    /// Forward computation, as the op catalog's dispatcher runs it.
    pub fn compute(&self, xs: &Vec<NdArray>) -> (r: Result<
        crate::op::ComputeVal,
        EvalError,
    >)
        requires
            forall|i: int| 0 <= i < xs@.len() ==> (#[trigger] xs@[i]).wf(),
        ensures
            r is Ok <==> crate::op::op_compute_spec(
                OpKind::Sub(*self),
                xs@.map_values(|x: NdArray| x@),
            ) is Some,
            r matches Ok(crate::op::ComputeVal::Value(v)) ==> crate::op::op_compute_spec(
                OpKind::Sub(*self),
                xs@.map_values(|x: NdArray| x@),
            ) == Some(crate::op::CompSpec::Val(v@)) && v.wf(),
            r matches Ok(crate::op::ComputeVal::Delegate(d)) ==> crate::op::op_compute_spec(
                OpKind::Sub(*self),
                xs@.map_values(|x: NdArray| x@),
            ) == Some(crate::op::CompSpec::Delg(d as int)) && (d as int) < xs@.len(),
    {
        crate::op::compute_node(&OpKind::Sub(*self), xs)
    }
}


impl MulOp {
    /// The op's name.
    pub fn name(&self) -> (r: &'static str) {
        "Mul"
    }

    /// Forward computation, as the op catalog's dispatcher runs it.
    pub fn compute(&self, xs: &Vec<NdArray>) -> (r: Result<
        crate::op::ComputeVal,
        EvalError,
    >)
        requires
            forall|i: int| 0 <= i < xs@.len() ==> (#[trigger] xs@[i]).wf(),
        ensures
            r is Ok <==> crate::op::op_compute_spec(
                OpKind::Mul(*self),
                xs@.map_values(|x: NdArray| x@),
            ) is Some,
            r matches Ok(crate::op::ComputeVal::Value(v)) ==> crate::op::op_compute_spec(
                OpKind::Mul(*self),
                xs@.map_values(|x: NdArray| x@),
            ) == Some(crate::op::CompSpec::Val(v@)) && v.wf(),
            r matches Ok(crate::op::ComputeVal::Delegate(d)) ==> crate::op::op_compute_spec(
                OpKind::Mul(*self),
                xs@.map_values(|x: NdArray| x@),
            ) == Some(crate::op::CompSpec::Delg(d as int)) && (d as int) < xs@.len(),
    {
        crate::op::compute_node(&OpKind::Mul(*self), xs)
    }
}


impl DivOp {
    /// The op's name.
    pub fn name(&self) -> (r: &'static str) {
        "Div"
    }

    /// Forward computation, as the op catalog's dispatcher runs it.
    pub fn compute(&self, xs: &Vec<NdArray>) -> (r: Result<
        crate::op::ComputeVal,
        EvalError,
    >)
        requires
            forall|i: int| 0 <= i < xs@.len() ==> (#[trigger] xs@[i]).wf(),
        ensures
            r is Ok <==> crate::op::op_compute_spec(
                OpKind::Div(*self),
                xs@.map_values(|x: NdArray| x@),
            ) is Some,
            r matches Ok(crate::op::ComputeVal::Value(v)) ==> crate::op::op_compute_spec(
                OpKind::Div(*self),
                xs@.map_values(|x: NdArray| x@),
            ) == Some(crate::op::CompSpec::Val(v@)) && v.wf(),
            r matches Ok(crate::op::ComputeVal::Delegate(d)) ==> crate::op::op_compute_spec(
                OpKind::Div(*self),
                xs@.map_values(|x: NdArray| x@),
            ) == Some(crate::op::CompSpec::Delg(d as int)) && (d as int) < xs@.len(),
    {
        crate::op::compute_node(&OpKind::Div(*self), xs)
    }
}


impl InplaceAddOp {
    /// The op's name.
    pub fn name(&self) -> (r: &'static str) {
        "InplaceAdd"
    }

    /// Forward computation, as the op catalog's dispatcher runs it.
    pub fn compute(&self, xs: &Vec<NdArray>) -> (r: Result<
        crate::op::ComputeVal,
        EvalError,
    >)
        requires
            forall|i: int| 0 <= i < xs@.len() ==> (#[trigger] xs@[i]).wf(),
        ensures
            r is Ok <==> crate::op::op_compute_spec(
                OpKind::InplaceAdd(*self),
                xs@.map_values(|x: NdArray| x@),
            ) is Some,
            r matches Ok(crate::op::ComputeVal::Value(v)) ==> crate::op::op_compute_spec(
                OpKind::InplaceAdd(*self),
                xs@.map_values(|x: NdArray| x@),
            ) == Some(crate::op::CompSpec::Val(v@)) && v.wf(),
            r matches Ok(crate::op::ComputeVal::Delegate(d)) ==> crate::op::op_compute_spec(
                OpKind::InplaceAdd(*self),
                xs@.map_values(|x: NdArray| x@),
            ) == Some(crate::op::CompSpec::Delg(d as int)) && (d as int) < xs@.len(),
    {
        crate::op::compute_node(&OpKind::InplaceAdd(*self), xs)
    }
}


impl InplaceSubOp {
    /// The op's name.
    pub fn name(&self) -> (r: &'static str) {
        "InplaceSub"
    }

    /// Forward computation, as the op catalog's dispatcher runs it.
    pub fn compute(&self, xs: &Vec<NdArray>) -> (r: Result<
        crate::op::ComputeVal,
        EvalError,
    >)
        requires
            forall|i: int| 0 <= i < xs@.len() ==> (#[trigger] xs@[i]).wf(),
        ensures
            r is Ok <==> crate::op::op_compute_spec(
                OpKind::InplaceSub(*self),
                xs@.map_values(|x: NdArray| x@),
            ) is Some,
            r matches Ok(crate::op::ComputeVal::Value(v)) ==> crate::op::op_compute_spec(
                OpKind::InplaceSub(*self),
                xs@.map_values(|x: NdArray| x@),
            ) == Some(crate::op::CompSpec::Val(v@)) && v.wf(),
            r matches Ok(crate::op::ComputeVal::Delegate(d)) ==> crate::op::op_compute_spec(
                OpKind::InplaceSub(*self),
                xs@.map_values(|x: NdArray| x@),
            ) == Some(crate::op::CompSpec::Delg(d as int)) && (d as int) < xs@.len(),
    {
        crate::op::compute_node(&OpKind::InplaceSub(*self), xs)
    }
}


impl InplaceMulOp {
    /// The op's name.
    pub fn name(&self) -> (r: &'static str) {
        "InplaceMul"
    }

    /// Forward computation, as the op catalog's dispatcher runs it.
    pub fn compute(&self, xs: &Vec<NdArray>) -> (r: Result<
        crate::op::ComputeVal,
        EvalError,
    >)
        requires
            forall|i: int| 0 <= i < xs@.len() ==> (#[trigger] xs@[i]).wf(),
        ensures
            r is Ok <==> crate::op::op_compute_spec(
                OpKind::InplaceMul(*self),
                xs@.map_values(|x: NdArray| x@),
            ) is Some,
            r matches Ok(crate::op::ComputeVal::Value(v)) ==> crate::op::op_compute_spec(
                OpKind::InplaceMul(*self),
                xs@.map_values(|x: NdArray| x@),
            ) == Some(crate::op::CompSpec::Val(v@)) && v.wf(),
            r matches Ok(crate::op::ComputeVal::Delegate(d)) ==> crate::op::op_compute_spec(
                OpKind::InplaceMul(*self),
                xs@.map_values(|x: NdArray| x@),
            ) == Some(crate::op::CompSpec::Delg(d as int)) && (d as int) < xs@.len(),
    {
        crate::op::compute_node(&OpKind::InplaceMul(*self), xs)
    }
}


impl InplaceDivOp {
    /// The op's name.
    pub fn name(&self) -> (r: &'static str) {
        "InplaceDiv"
    }

    /// Forward computation, as the op catalog's dispatcher runs it.
    pub fn compute(&self, xs: &Vec<NdArray>) -> (r: Result<
        crate::op::ComputeVal,
        EvalError,
    >)
        requires
            forall|i: int| 0 <= i < xs@.len() ==> (#[trigger] xs@[i]).wf(),
        ensures
            r is Ok <==> crate::op::op_compute_spec(
                OpKind::InplaceDiv(*self),
                xs@.map_values(|x: NdArray| x@),
            ) is Some,
            r matches Ok(crate::op::ComputeVal::Value(v)) ==> crate::op::op_compute_spec(
                OpKind::InplaceDiv(*self),
                xs@.map_values(|x: NdArray| x@),
            ) == Some(crate::op::CompSpec::Val(v@)) && v.wf(),
            r matches Ok(crate::op::ComputeVal::Delegate(d)) ==> crate::op::op_compute_spec(
                OpKind::InplaceDiv(*self),
                xs@.map_values(|x: NdArray| x@),
            ) == Some(crate::op::CompSpec::Delg(d as int)) && (d as int) < xs@.len(),
    {
        crate::op::compute_node(&OpKind::InplaceDiv(*self), xs)
    }
}


impl PreprocessBinOpGrad {
    /// The op's name.
    pub fn name(&self) -> (r: &'static str) {
        "PreprocessBinOpGrad"
    }

    /// Forward computation, as the op catalog's dispatcher runs it.
    pub fn compute(&self, xs: &Vec<NdArray>) -> (r: Result<
        crate::op::ComputeVal,
        EvalError,
    >)
        requires
            forall|i: int| 0 <= i < xs@.len() ==> (#[trigger] xs@[i]).wf(),
        ensures
            r is Ok <==> crate::op::op_compute_spec(
                OpKind::PreprocessBinOpGrad(*self),
                xs@.map_values(|x: NdArray| x@),
            ) is Some,
            r matches Ok(crate::op::ComputeVal::Value(v)) ==> crate::op::op_compute_spec(
                OpKind::PreprocessBinOpGrad(*self),
                xs@.map_values(|x: NdArray| x@),
            ) == Some(crate::op::CompSpec::Val(v@)) && v.wf(),
            r matches Ok(crate::op::ComputeVal::Delegate(d)) ==> crate::op::op_compute_spec(
                OpKind::PreprocessBinOpGrad(*self),
                xs@.map_values(|x: NdArray| x@),
            ) == Some(crate::op::CompSpec::Delg(d as int)) && (d as int) < xs@.len(),
    {
        crate::op::compute_node(&OpKind::PreprocessBinOpGrad(*self), xs)
    }
}


impl PreprocessBinOpGradGrad {
    /// The op's name.
    pub fn name(&self) -> (r: &'static str) {
        "PreprocessBinOpGradGrad"
    }

    /// Forward computation, as the op catalog's dispatcher runs it.
    pub fn compute(&self, xs: &Vec<NdArray>) -> (r: Result<
        crate::op::ComputeVal,
        EvalError,
    >)
        requires
            forall|i: int| 0 <= i < xs@.len() ==> (#[trigger] xs@[i]).wf(),
        ensures
            r is Ok <==> crate::op::op_compute_spec(
                OpKind::PreprocessBinOpGradGrad(*self),
                xs@.map_values(|x: NdArray| x@),
            ) is Some,
            r matches Ok(crate::op::ComputeVal::Value(v)) ==> crate::op::op_compute_spec(
                OpKind::PreprocessBinOpGradGrad(*self),
                xs@.map_values(|x: NdArray| x@),
            ) == Some(crate::op::CompSpec::Val(v@)) && v.wf(),
            r matches Ok(crate::op::ComputeVal::Delegate(d)) ==> crate::op::op_compute_spec(
                OpKind::PreprocessBinOpGradGrad(*self),
                xs@.map_values(|x: NdArray| x@),
            ) == Some(crate::op::CompSpec::Delg(d as int)) && (d as int) < xs@.len(),
    {
        crate::op::compute_node(&OpKind::PreprocessBinOpGradGrad(*self), xs)
    }
}

} // verus!
