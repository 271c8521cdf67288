use vstd::prelude::*;

use crate::array::{ok_shape, prod, ArrSpec, NdArray, MAX_ELEMS, MAX_RANK};
use crate::binary_ops::{
    bin_all_ok, bin_compat, bin_result, bin_shape, broadcast_to, elementwise, expand_result,
    expandable, reduce_fits, reduce_ok, reduce_result, reduce_to, AddOp, BinKind, DivOp,
    InplaceAddOp, InplaceDivOp, InplaceMulOp, InplaceSubOp, MulOp, PreprocessBinOpGrad,
    PreprocessBinOpGradGrad, SubOp,
};
use crate::conv2d_transpose::{
    conv_fwd_data, conv_fwd_ok, conv_fwd_shape, conv_t_data, conv_t_ok, conv_t_shape, fg_data,
    fg_ok, Conv2D, Conv2DTranspose, Conv2DTransposeFilterGrad,
};
use crate::error::EvalError;

verus! {

/// The closed catalog of operations a graph node can apply.  Leaves
/// (placeholders, variables, constants) take their value from the
/// evaluation context and never compute.
#[derive(Clone, Copy, Debug, PartialEq, Eq, Structural)]
pub enum OpKind {
    Placeholder,
    Variable,
    Constant,
    /// The shape of its input, as a rank-1 array of dimension sizes.
    ShapeOf,
    /// An all-ones array of the shape its input lists.
    Ones,
    /// Elementwise negation.
    Neg,
    /// Passes its input through unchanged and discards incoming gradients.
    StopGradient,
    Add(AddOp),
    Sub(SubOp),
    Mul(MulOp),
    Div(DivOp),
    InplaceAdd(InplaceAddOp),
    InplaceSub(InplaceSubOp),
    InplaceMul(InplaceMulOp),
    InplaceDiv(InplaceDivOp),
    PreprocessBinOpGrad(PreprocessBinOpGrad),
    PreprocessBinOpGradGrad(PreprocessBinOpGradGrad),
    Conv2DTranspose(Conv2DTranspose),
    Conv2DTransposeFilterGrad(Conv2DTransposeFilterGrad),
    Conv2D(Conv2D),
}

/// What one forward computation produces: a concrete value, or a delegate
/// marker naming the input slot whose value is the result (zero-copy
/// passthrough, resolved by the runtime).
pub enum ComputeVal {
    Value(NdArray),
    Delegate(usize),
}

/// Model of a compute result.
pub enum CompSpec {
    Val(ArrSpec),
    Delg(int),
}

/// The dimension list a rank-0-or-1 array encodes, read as sizes.
pub open spec fn dims_of(s: ArrSpec) -> Seq<usize> {
    s.data.map_values(|v: i64| v as usize)
}

/// Whether an array is a valid shape carrier: rank at most one, entries in
/// `0..=MAX_ELEMS`, and few enough of them.
pub open spec fn dims_ok(s: ArrSpec) -> bool {
    &&& s.shape.len() <= 1
    &&& s.data.len() <= MAX_RANK
    &&& forall|i: int| 0 <= i < s.data.len() ==> 0 <= #[trigger] s.data[i] <= MAX_ELEMS as int
}

/// All operand models are well-formed.
pub open spec fn all_wf(xs: Seq<ArrSpec>) -> bool {
    forall|i: int| 0 <= i < xs.len() ==> (#[trigger] xs[i]).wf()
}

/// The shape array the `ShapeOf` op produces.
pub open spec fn shape_arr_of(a: ArrSpec) -> ArrSpec {
    ArrSpec {
        shape: seq![a.shape.len() as usize],
        data: Seq::new(a.shape.len(), |i: int| a.shape[i] as i64),
    }
}

/// An all-ones array of the given shape.
pub open spec fn ones_arr(shape: Seq<usize>) -> ArrSpec {
    ArrSpec { shape: shape, data: Seq::new(prod(shape) as nat, |i: int| 1i64) }
}

/// Elementwise negation result.
pub open spec fn neg_arr(a: ArrSpec) -> ArrSpec {
    ArrSpec { shape: a.shape, data: a.data.map_values(|v: i64| (-(v as int)) as i64) }
}

/// What an op's forward computation returns on the given operand values:
/// `None` where the computation is a usage error or an element is not
/// representable, `Some` otherwise.  Leaves are never computed.
pub open spec fn op_compute_spec(op: OpKind, xs: Seq<ArrSpec>) -> Option<CompSpec> {
    match op {
        OpKind::Placeholder => None,
        OpKind::Variable => None,
        OpKind::Constant => None,
        OpKind::ShapeOf => {
            if xs.len() == 1 && all_wf(xs) {
                Some(CompSpec::Val(shape_arr_of(xs[0])))
            } else {
                None
            }
        },
        OpKind::Ones => {
            if xs.len() == 1 && all_wf(xs) && dims_ok(xs[0]) && ok_shape(dims_of(xs[0])) {
                Some(CompSpec::Val(ones_arr(dims_of(xs[0]))))
            } else {
                None
            }
        },
        OpKind::Neg => {
            if xs.len() == 1 && all_wf(xs) && (forall|i: int|
                0 <= i < xs[0].data.len() ==> #[trigger] xs[0].data[i] != i64::MIN) {
                Some(CompSpec::Val(neg_arr(xs[0])))
            } else {
                None
            }
        },
        OpKind::StopGradient => {
            if xs.len() == 1 && all_wf(xs) {
                Some(CompSpec::Delg(0))
            } else {
                None
            }
        },
        OpKind::Add(_) => bin_compute_spec(BinKind::Add, xs),
        OpKind::Sub(_) => bin_compute_spec(BinKind::Sub, xs),
        OpKind::Mul(_) => bin_compute_spec(BinKind::Mul, xs),
        OpKind::Div(_) => bin_compute_spec(BinKind::Div, xs),
        OpKind::InplaceAdd(_) => inplace_compute_spec(BinKind::Add, xs),
        OpKind::InplaceSub(_) => inplace_compute_spec(BinKind::Sub, xs),
        OpKind::InplaceMul(_) => inplace_compute_spec(BinKind::Mul, xs),
        OpKind::InplaceDiv(_) => inplace_compute_spec(BinKind::Div, xs),
        OpKind::PreprocessBinOpGrad(_) => reduce_compute_spec(xs),
        OpKind::PreprocessBinOpGradGrad(_) => expand_compute_spec(xs),
        OpKind::Conv2DTranspose(c) => {
            if xs.len() == 2 && all_wf(xs) && conv_t_ok(c.pad, c.stride, c.dilation, xs[0], xs[1]) {
                Some(
                    CompSpec::Val(
                        ArrSpec {
                            shape: conv_t_shape(c.pad, c.stride, c.dilation, xs[0], xs[1]),
                            data: conv_t_data(c.pad, c.stride, c.dilation, xs[0], xs[1]),
                        },
                    ),
                )
            } else {
                None
            }
        },
        OpKind::Conv2DTransposeFilterGrad(c) => {
            if xs.len() == 3 && all_wf(xs) && fg_ok(
                c.pad,
                c.stride,
                c.dilation,
                xs[0],
                xs[1],
                xs[2],
            ) {
                Some(
                    CompSpec::Val(
                        ArrSpec {
                            shape: xs[2].shape,
                            data: fg_data(c.pad, c.stride, c.dilation, xs[0], xs[1], xs[2]),
                        },
                    ),
                )
            } else {
                None
            }
        },
        OpKind::Conv2D(c) => {
            if xs.len() == 2 && all_wf(xs) && conv_fwd_ok(
                c.pad,
                c.stride,
                c.dilation,
                xs[0],
                xs[1],
            ) {
                Some(
                    CompSpec::Val(
                        ArrSpec {
                            shape: conv_fwd_shape(c.pad, c.stride, c.dilation, xs[0], xs[1]),
                            data: conv_fwd_data(c.pad, c.stride, c.dilation, xs[0], xs[1]),
                        },
                    ),
                )
            } else {
                None
            }
        },
    }
}

/// Broadcasting elementwise binary computation.
pub open spec fn bin_compute_spec(k: BinKind, xs: Seq<ArrSpec>) -> Option<CompSpec> {
    if xs.len() == 2 && all_wf(xs) && bin_compat(xs[0].shape, xs[1].shape) && ok_shape(
        bin_shape(xs[0].shape, xs[1].shape),
    ) && bin_all_ok(k, xs[0], xs[1]) {
        Some(CompSpec::Val(bin_result(k, xs[0], xs[1])))
    } else {
        None
    }
}

/// In-place elementwise binary computation: operand shapes must be equal
/// (the first operand's storage is updated in place, so no broadcasting),
/// and the node's value is the updated first operand.
pub open spec fn inplace_compute_spec(k: BinKind, xs: Seq<ArrSpec>) -> Option<CompSpec> {
    if xs.len() == 2 && all_wf(xs) && xs[0].shape == xs[1].shape && bin_all_ok(k, xs[0], xs[1]) {
        Some(CompSpec::Val(bin_result(k, xs[0], xs[1])))
    } else {
        None
    }
}

/// Broadcast-gradient reduction: inputs are the gradient and a shape
/// carrier; equal shapes delegate to the gradient unchanged (zero copy),
/// otherwise the gradient is summed down to the target shape.
pub open spec fn reduce_compute_spec(xs: Seq<ArrSpec>) -> Option<CompSpec> {
    if xs.len() == 2 && all_wf(xs) && dims_ok(xs[1]) {
        let target = dims_of(xs[1]);
        if target == xs[0].shape {
            Some(CompSpec::Delg(0))
        } else if reduce_ok(xs[0], target) && reduce_fits(xs[0], target) {
            Some(CompSpec::Val(reduce_result(xs[0], target)))
        } else {
            None
        }
    } else {
        None
    }
}

/// Broadcast-gradient expansion, the inverse of the reduction: equal shapes
/// delegate, otherwise the gradient is broadcast up to the target shape.
pub open spec fn expand_compute_spec(xs: Seq<ArrSpec>) -> Option<CompSpec> {
    if xs.len() == 2 && all_wf(xs) && dims_ok(xs[1]) {
        let target = dims_of(xs[1]);
        if target == xs[0].shape {
            Some(CompSpec::Delg(0))
        } else if expandable(xs[0].shape, target) {
            Some(CompSpec::Val(expand_result(xs[0], target)))
        } else {
            None
        }
    } else {
        None
    }
}

/// Reads the dimension list a rank-0-or-1 array encodes.
pub fn dims_from(arr: &NdArray) -> (r: Result<Vec<usize>, EvalError>)
    ensures
        r is Ok <==> dims_ok(arr@),
        r matches Ok(v) ==> v@ == dims_of(arr@),
        r is Err ==> r == Err::<Vec<usize>, EvalError>(EvalError::ShapeMismatch),
{
    if arr.shape.len() > 1 || arr.data.len() > MAX_RANK {
        return Err(EvalError::ShapeMismatch);
    }
    let n = arr.data.len();
    let mut out: Vec<usize> = Vec::new();
    let mut i: usize = 0;
    while i < n
        invariant
            0 <= i <= n,
            n == arr@.data.len(),
            out@.len() == i,
            forall|j: int| 0 <= j < i ==> 0 <= #[trigger] arr@.data[j] <= MAX_ELEMS as int,
            forall|j: int| 0 <= j < i ==> out@[j] == arr@.data[j] as usize,
        decreases n - i,
    {
        let v = arr.data[i];
        if v < 0 || v > MAX_ELEMS as i64 {
            return Err(EvalError::ShapeMismatch);
        }
        out.push(v as usize);
        i = i + 1;
    }
    proof {
        assert(out@ =~= dims_of(arr@));
    }
    Ok(out)
}

/// Whether two dimension lists are equal.
pub fn eq_dims(a: &Vec<usize>, b: &Vec<usize>) -> (r: bool)
    ensures
        r <==> a@ =~= b@,
{
    if a.len() != b.len() {
        return false;
    }
    let n = a.len();
    let mut i: usize = 0;
    while i < n
        invariant
            0 <= i <= n,
            n == a@.len(),
            a@.len() == b@.len(),
            forall|j: int| 0 <= j < i ==> a@[j] == b@[j],
        decreases n - i,
    {
        if a[i] != b[i] {
            return false;
        }
        i = i + 1;
    }
    true
}

/// Applies an op's forward computation to materialised operand values,
/// exactly as [`op_compute_spec`] describes.
pub fn compute_node(op: &OpKind, xs: &Vec<NdArray>) -> (r: Result<ComputeVal, EvalError>)
    requires
        forall|i: int| 0 <= i < xs@.len() ==> (#[trigger] xs@[i]).wf(),
    ensures
        r is Ok <==> op_compute_spec(*op, xs@.map_values(|x: NdArray| x@)) is Some,
        r matches Ok(ComputeVal::Value(v)) ==> op_compute_spec(
            *op,
            xs@.map_values(|x: NdArray| x@),
        ) == Some(CompSpec::Val(v@)) && v.wf(),
        r matches Ok(ComputeVal::Delegate(d)) ==> op_compute_spec(
            *op,
            xs@.map_values(|x: NdArray| x@),
        ) == Some(CompSpec::Delg(d as int)) && (d as int) < xs@.len(),
{
    let ghost gxs = xs@.map_values(|x: NdArray| x@);
    proof {
        assert(all_wf(gxs));
        assert(gxs.len() == xs@.len());
    }
    match op {
        OpKind::Placeholder => Err(EvalError::UnfedPlaceholder),
        OpKind::Variable => Err(EvalError::UnboundVariable),
        OpKind::Constant => Err(EvalError::UnboundVariable),
        OpKind::ShapeOf => shapeof_compute(xs),
        OpKind::Ones => ones_compute(xs),
        OpKind::Neg => neg_compute(xs),
        OpKind::StopGradient => {
            if xs.len() != 1 {
                return Err(EvalError::ShapeMismatch);
            }
            Ok(ComputeVal::Delegate(0))
        },
        OpKind::Add(_) => bin_compute(BinKind::Add, xs),
        OpKind::Sub(_) => bin_compute(BinKind::Sub, xs),
        OpKind::Mul(_) => bin_compute(BinKind::Mul, xs),
        OpKind::Div(_) => bin_compute(BinKind::Div, xs),
        OpKind::InplaceAdd(_) => inplace_compute(BinKind::Add, xs),
        OpKind::InplaceSub(_) => inplace_compute(BinKind::Sub, xs),
        OpKind::InplaceMul(_) => inplace_compute(BinKind::Mul, xs),
        OpKind::InplaceDiv(_) => inplace_compute(BinKind::Div, xs),
        OpKind::PreprocessBinOpGrad(_) => reduce_compute(xs),
        OpKind::PreprocessBinOpGradGrad(_) => expand_compute(xs),
        OpKind::Conv2DTranspose(c) => {
            if xs.len() != 2 {
                return Err(EvalError::ShapeMismatch);
            }
            match c.compute(&xs[0], &xs[1]) {
                Ok(a) => Ok(ComputeVal::Value(a)),
                Err(e) => Err(e),
            }
        },
        OpKind::Conv2DTransposeFilterGrad(c) => {
            if xs.len() != 3 {
                return Err(EvalError::ShapeMismatch);
            }
            match c.compute(&xs[0], &xs[1], &xs[2]) {
                Ok(a) => Ok(ComputeVal::Value(a)),
                Err(e) => Err(e),
            }
        },
        OpKind::Conv2D(c) => {
            if xs.len() != 2 {
                return Err(EvalError::ShapeMismatch);
            }
            match c.compute(&xs[0], &xs[1]) {
                Ok(a) => Ok(ComputeVal::Value(a)),
                Err(e) => Err(e),
            }
        },
    }
}

/// Forward computation of `ShapeOf`.
#[verifier::loop_isolation(false)]
fn shapeof_compute(xs: &Vec<NdArray>) -> (r: Result<ComputeVal, EvalError>)
    requires
        forall|i: int| 0 <= i < xs@.len() ==> (#[trigger] xs@[i]).wf(),
    ensures
        r is Ok <==> op_compute_spec(OpKind::ShapeOf, xs@.map_values(|x: NdArray| x@)) is Some,
        r matches Ok(ComputeVal::Value(v)) ==> op_compute_spec(
            OpKind::ShapeOf,
            xs@.map_values(|x: NdArray| x@),
        ) == Some(CompSpec::Val(v@)) && v.wf(),
        r matches Ok(ComputeVal::Delegate(d)) ==> false,
{
    let ghost gxs = xs@.map_values(|x: NdArray| x@);
    if xs.len() != 1 {
        return Err(EvalError::ShapeMismatch);
    }
    let a = &xs[0];
    proof {
        assert(gxs[0] == a@);
        assert(all_wf(gxs));
    }
    let rank = a.shape.len();
    let mut data: Vec<i64> = Vec::new();
    let mut i: usize = 0;
    while i < rank
        invariant
            0 <= i <= rank,
            rank == a@.shape.len(),
            a.wf(),
            data@.len() == i,
            forall|j: int| 0 <= j < i ==> data@[j] == a@.shape[j] as i64,
        decreases rank - i,
    {
        data.push(a.shape[i] as i64);
        i = i + 1;
    }
    let out = NdArray { shape: vec![rank], data };
    proof {
        assert(out@.shape =~= shape_arr_of(gxs[0]).shape);
        assert(out@.data =~= shape_arr_of(gxs[0]).data);
        assert(out@ == shape_arr_of(gxs[0]));
        assert(out@.shape.skip(1) =~= Seq::<usize>::empty());
        assert(prod(out@.shape) == out@.shape[0] * prod(out@.shape.skip(1)));
        assert(prod(out@.shape) == rank);
        assert(out.wf());
    }
    Ok(ComputeVal::Value(out))
}

/// Forward computation of `Ones`.
fn ones_compute(xs: &Vec<NdArray>) -> (r: Result<ComputeVal, EvalError>)
    requires
        forall|i: int| 0 <= i < xs@.len() ==> (#[trigger] xs@[i]).wf(),
    ensures
        r is Ok <==> op_compute_spec(OpKind::Ones, xs@.map_values(|x: NdArray| x@)) is Some,
        r matches Ok(ComputeVal::Value(v)) ==> op_compute_spec(
            OpKind::Ones,
            xs@.map_values(|x: NdArray| x@),
        ) == Some(CompSpec::Val(v@)) && v.wf(),
        r matches Ok(ComputeVal::Delegate(d)) ==> false,
{
    let ghost gxs = xs@.map_values(|x: NdArray| x@);
    if xs.len() != 1 {
        return Err(EvalError::ShapeMismatch);
    }
    proof {
        assert(gxs[0] == xs@[0]@);
        assert(all_wf(gxs));
    }
    let dims = match dims_from(&xs[0]) {
        Ok(v) => v,
        Err(e) => {
            return Err(e);
        },
    };
    match NdArray::filled(dims, 1) {
        Ok(a) => {
            proof {
                assert(a@.data =~= ones_arr(dims_of(gxs[0])).data);
                assert(a@ == ones_arr(dims_of(gxs[0])));
            }
            Ok(ComputeVal::Value(a))
        },
        Err(e) => Err(e),
    }
}

/// Forward computation of `Neg`.
#[verifier::loop_isolation(false)]
fn neg_compute(xs: &Vec<NdArray>) -> (r: Result<ComputeVal, EvalError>)
    requires
        forall|i: int| 0 <= i < xs@.len() ==> (#[trigger] xs@[i]).wf(),
    ensures
        r is Ok <==> op_compute_spec(OpKind::Neg, xs@.map_values(|x: NdArray| x@)) is Some,
        r matches Ok(ComputeVal::Value(v)) ==> op_compute_spec(
            OpKind::Neg,
            xs@.map_values(|x: NdArray| x@),
        ) == Some(CompSpec::Val(v@)) && v.wf(),
        r matches Ok(ComputeVal::Delegate(d)) ==> false,
{
    let ghost gxs = xs@.map_values(|x: NdArray| x@);
    if xs.len() != 1 {
        return Err(EvalError::ShapeMismatch);
    }
    let a = &xs[0];
    proof {
        assert(gxs[0] == a@);
        assert(all_wf(gxs));
    }
    let n = a.data.len();
    let mut data: Vec<i64> = Vec::new();
    let mut i: usize = 0;
    while i < n
        invariant
            0 <= i <= n,
            n == a@.data.len(),
            data@.len() == i,
            forall|j: int| 0 <= j < i ==> #[trigger] a@.data[j] != i64::MIN,
            forall|j: int| 0 <= j < i ==> data@[j] as int == -(a@.data[j] as int),
        decreases n - i,
    {
        let v = a.data[i];
        if v == i64::MIN {
            proof {
                assert(gxs[0].data[i as int] == i64::MIN);
            }
            return Err(EvalError::ValueOutOfRange);
        }
        data.push(-v);
        i = i + 1;
    }
    let out = NdArray { shape: a.shape.clone(), data };
    proof {
        assert(out@.data =~= neg_arr(gxs[0]).data);
        assert(out@ == neg_arr(gxs[0]));
        assert(out.wf());
    }
    Ok(ComputeVal::Value(out))
}

/// Forward computation of the broadcast-gradient reduction.
fn reduce_compute(xs: &Vec<NdArray>) -> (r: Result<ComputeVal, EvalError>)
    requires
        forall|i: int| 0 <= i < xs@.len() ==> (#[trigger] xs@[i]).wf(),
    ensures
        r is Ok <==> reduce_compute_spec(xs@.map_values(|x: NdArray| x@)) is Some,
        r matches Ok(ComputeVal::Value(v)) ==> reduce_compute_spec(
            xs@.map_values(|x: NdArray| x@),
        ) == Some(CompSpec::Val(v@)) && v.wf(),
        r matches Ok(ComputeVal::Delegate(d)) ==> reduce_compute_spec(
            xs@.map_values(|x: NdArray| x@),
        ) == Some(CompSpec::Delg(d as int)) && d == 0usize,
{
    let ghost gxs = xs@.map_values(|x: NdArray| x@);
    if xs.len() != 2 {
        return Err(EvalError::ShapeMismatch);
    }
    proof {
        assert(gxs[0] == xs@[0]@ && gxs[1] == xs@[1]@);
        assert(all_wf(gxs));
    }
    let target = match dims_from(&xs[1]) {
        Ok(v) => v,
        Err(e) => {
            return Err(e);
        },
    };
    if eq_dims(&target, &xs[0].shape) {
        proof {
            assert(dims_of(gxs[1]) == gxs[0].shape);
        }
        return Ok(ComputeVal::Delegate(0));
    }
    proof {
        assert(dims_of(gxs[1]) != gxs[0].shape);
    }
    match reduce_to(&xs[0], &target) {
        Ok(a) => Ok(ComputeVal::Value(a)),
        Err(e) => Err(e),
    }
}

/// Forward computation of the broadcast-gradient expansion.
fn expand_compute(xs: &Vec<NdArray>) -> (r: Result<ComputeVal, EvalError>)
    requires
        forall|i: int| 0 <= i < xs@.len() ==> (#[trigger] xs@[i]).wf(),
    ensures
        r is Ok <==> expand_compute_spec(xs@.map_values(|x: NdArray| x@)) is Some,
        r matches Ok(ComputeVal::Value(v)) ==> expand_compute_spec(
            xs@.map_values(|x: NdArray| x@),
        ) == Some(CompSpec::Val(v@)) && v.wf(),
        r matches Ok(ComputeVal::Delegate(d)) ==> expand_compute_spec(
            xs@.map_values(|x: NdArray| x@),
        ) == Some(CompSpec::Delg(d as int)) && d == 0usize,
{
    let ghost gxs = xs@.map_values(|x: NdArray| x@);
    if xs.len() != 2 {
        return Err(EvalError::ShapeMismatch);
    }
    proof {
        assert(gxs[0] == xs@[0]@ && gxs[1] == xs@[1]@);
        assert(all_wf(gxs));
    }
    let target = match dims_from(&xs[1]) {
        Ok(v) => v,
        Err(e) => {
            return Err(e);
        },
    };
    if eq_dims(&target, &xs[0].shape) {
        proof {
            assert(dims_of(gxs[1]) == gxs[0].shape);
        }
        return Ok(ComputeVal::Delegate(0));
    }
    proof {
        assert(dims_of(gxs[1]) != gxs[0].shape);
    }
    match broadcast_to(&xs[0], &target) {
        Ok(a) => Ok(ComputeVal::Value(a)),
        Err(e) => Err(e),
    }
}

/// Broadcasting elementwise computation shared by the four binary ops.
fn bin_compute(k: BinKind, xs: &Vec<NdArray>) -> (r: Result<ComputeVal, EvalError>)
    requires
        forall|i: int| 0 <= i < xs@.len() ==> (#[trigger] xs@[i]).wf(),
    ensures
        r is Ok <==> bin_compute_spec(k, xs@.map_values(|x: NdArray| x@)) is Some,
        r matches Ok(ComputeVal::Value(v)) ==> bin_compute_spec(
            k,
            xs@.map_values(|x: NdArray| x@),
        ) == Some(CompSpec::Val(v@)) && v.wf(),
        r matches Ok(ComputeVal::Delegate(d)) ==> false,
{
    if xs.len() != 2 {
        return Err(EvalError::ShapeMismatch);
    }
    match elementwise(k, &xs[0], &xs[1]) {
        Ok(a) => Ok(ComputeVal::Value(a)),
        Err(e) => Err(e),
    }
}

/// In-place elementwise computation shared by the four in-place ops.
fn inplace_compute(k: BinKind, xs: &Vec<NdArray>) -> (r: Result<ComputeVal, EvalError>)
    requires
        forall|i: int| 0 <= i < xs@.len() ==> (#[trigger] xs@[i]).wf(),
    ensures
        r is Ok <==> inplace_compute_spec(k, xs@.map_values(|x: NdArray| x@)) is Some,
        r matches Ok(ComputeVal::Value(v)) ==> inplace_compute_spec(
            k,
            xs@.map_values(|x: NdArray| x@),
        ) == Some(CompSpec::Val(v@)) && v.wf(),
        r matches Ok(ComputeVal::Delegate(d)) ==> false,
{
    if xs.len() != 2 {
        return Err(EvalError::ShapeMismatch);
    }
    if !eq_dims(&xs[0].shape, &xs[1].shape) {
        return Err(EvalError::ShapeMismatch);
    }
    proof {
        let gxs = xs@.map_values(|x: NdArray| x@);
        assert(gxs[0].shape == gxs[1].shape);
        assert(bin_compat(gxs[0].shape, gxs[1].shape)) by {
            if gxs[0].shape.len() != 0 {
            }
        };
        assert(bin_shape(gxs[0].shape, gxs[1].shape) =~= gxs[0].shape);
        assert(ok_shape(bin_shape(gxs[0].shape, gxs[1].shape)));
    }
    match elementwise(k, &xs[0], &xs[1]) {
        Ok(a) => Ok(ComputeVal::Value(a)),
        Err(e) => Err(e),
    }
}

/// No-broadcast identity (law): when the gradient already has the operand
/// shape, both the reduction op and the expansion op answer with a
/// zero-copy delegate to their gradient input — the very same value, not a
/// copy.
pub proof fn lemma_no_broadcast_delegates(xs: Seq<ArrSpec>)
    requires
        xs.len() == 2,
        all_wf(xs),
        dims_ok(xs[1]),
        dims_of(xs[1]) == xs[0].shape,
    ensures
        reduce_compute_spec(xs) == Some(CompSpec::Delg(0)),
        expand_compute_spec(xs) == Some(CompSpec::Delg(0)),
{
}

} // verus!
