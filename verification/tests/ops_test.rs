use autograd::array::NdArray;
use autograd::binary_ops::{
    broadcast_to, elementwise, reduce_to, BinKind, PreprocessBinOpGrad, PreprocessBinOpGradGrad,
};
use autograd::error::EvalError;
use autograd::op::ComputeVal;

fn arr(shape: Vec<usize>, data: Vec<i64>) -> NdArray {
    NdArray::new(shape, data).unwrap()
}

#[test]
fn test_elementwise_same_shape() {
    let a = arr(vec![2, 3], vec![1, 2, 3, 4, 5, 6]);
    let b = arr(vec![2, 3], vec![10, 20, 30, 40, 50, 60]);
    let s = elementwise(BinKind::Add, &a, &b).unwrap();
    assert_eq!(s.shape, vec![2, 3]);
    assert_eq!(s.data, vec![11, 22, 33, 44, 55, 66]);
    let d = elementwise(BinKind::Sub, &b, &a).unwrap();
    assert_eq!(d.data, vec![9, 18, 27, 36, 45, 54]);
}

#[test]
fn test_elementwise_broadcast() {
    // (2,1) * (1,3) broadcasts to (2,3)
    let a = arr(vec![2, 1], vec![2, 3]);
    let b = arr(vec![1, 3], vec![10, 100, 1000]);
    let p = elementwise(BinKind::Mul, &a, &b).unwrap();
    assert_eq!(p.shape, vec![2, 3]);
    assert_eq!(p.data, vec![20, 200, 2000, 30, 300, 3000]);
}

#[test]
fn test_elementwise_scalar() {
    let a = NdArray::scalar(7);
    let b = arr(vec![3], vec![1, 2, 3]);
    let s = elementwise(BinKind::Add, &a, &b).unwrap();
    assert_eq!(s.shape, vec![3]);
    assert_eq!(s.data, vec![8, 9, 10]);
    // operand order is kept for subtraction: 7 - [1,2,3]
    let d = elementwise(BinKind::Sub, &a, &b).unwrap();
    assert_eq!(d.data, vec![6, 5, 4]);
}

#[test]
fn test_elementwise_shape_mismatch() {
    let a = arr(vec![2, 2], vec![1, 2, 3, 4]);
    let b = arr(vec![3], vec![1, 2, 3]);
    assert_eq!(elementwise(BinKind::Add, &a, &b), Err(EvalError::ShapeMismatch));
}

#[test]
fn test_division_by_zero() {
    let a = arr(vec![2], vec![4, 9]);
    let b = arr(vec![2], vec![2, 0]);
    assert_eq!(elementwise(BinKind::Div, &a, &b), Err(EvalError::DivisionByZero));
    let c = arr(vec![2], vec![2, 3]);
    let q = elementwise(BinKind::Div, &a, &c).unwrap();
    assert_eq!(q.data, vec![2, 3]);
}

#[test]
fn test_overflow_reported() {
    let a = arr(vec![1], vec![i64::MAX]);
    let b = arr(vec![1], vec![1]);
    assert_eq!(elementwise(BinKind::Add, &a, &b), Err(EvalError::ValueOutOfRange));
}

#[test]
fn test_reduce_sums_broadcast_axes() {
    // gradient of shape (2,3) reduced to operand shape (1,3) sums axis 0
    let gy = arr(vec![2, 3], vec![1, 2, 3, 4, 5, 6]);
    let r = reduce_to(&gy, &vec![1, 3]).unwrap();
    assert_eq!(r.shape, vec![1, 3]);
    assert_eq!(r.data, vec![5, 7, 9]);
    // reduced to a rank-0 scalar it sums everything
    let s = reduce_to(&gy, &vec![]).unwrap();
    assert_eq!(s.shape, Vec::<usize>::new());
    assert_eq!(s.data, vec![21]);
}

#[test]
fn test_expand_repeats_along_axes() {
    let h = arr(vec![1, 3], vec![5, 7, 9]);
    let e = broadcast_to(&h, &vec![2, 3]).unwrap();
    assert_eq!(e.shape, vec![2, 3]);
    assert_eq!(e.data, vec![5, 7, 9, 5, 7, 9]);
}

#[test]
fn test_broadcast_round_trip_identity() {
    // with equal element counts nothing is folded, so reduction and
    // expansion are exact mutual inverses
    let gy = arr(vec![2, 3], vec![1, 2, 3, 4, 5, 6]);
    let r = reduce_to(&gy, &vec![2, 3]).unwrap();
    let back = broadcast_to(&r, &vec![2, 3]).unwrap();
    assert_eq!(back.data, gy.data);
    // the scalar edge: a one-element gradient survives the round trip
    let one = arr(vec![1, 1], vec![42]);
    let r0 = reduce_to(&one, &vec![]).unwrap();
    let back0 = broadcast_to(&r0, &vec![1, 1]).unwrap();
    assert_eq!(back0.data, vec![42]);
}

#[test]
fn test_no_broadcast_identity_delegates() {
    // equal shapes: the reduction op answers with a zero-copy delegate to
    // its gradient input, not a copied value
    let op = PreprocessBinOpGrad;
    let gy = arr(vec![2, 2], vec![1, 2, 3, 4]);
    let shape_carrier = arr(vec![2], vec![2, 2]);
    let out = op.compute(&vec![gy, shape_carrier]).unwrap();
    match out {
        ComputeVal::Delegate(d) => assert_eq!(d, 0),
        ComputeVal::Value(_) => panic!("expected a delegate, got a value"),
    }
    // and so does the expansion op
    let op2 = PreprocessBinOpGradGrad;
    let gy2 = arr(vec![2, 2], vec![1, 2, 3, 4]);
    let shape_carrier2 = arr(vec![2], vec![2, 2]);
    let out2 = op2.compute(&vec![gy2, shape_carrier2]).unwrap();
    assert!(matches!(out2, ComputeVal::Delegate(0)));
}

#[test]
fn test_reduction_op_folds_when_shapes_differ() {
    let op = PreprocessBinOpGrad;
    let gy = arr(vec![2, 3], vec![1, 2, 3, 4, 5, 6]);
    let shape_carrier = arr(vec![2], vec![1, 3]);
    match op.compute(&vec![gy, shape_carrier]).unwrap() {
        ComputeVal::Value(v) => {
            assert_eq!(v.shape, vec![1, 3]);
            assert_eq!(v.data, vec![5, 7, 9]);
        },
        ComputeVal::Delegate(_) => panic!("expected a value"),
    }
}

#[test]
fn test_array_construction_rejects_bad_shapes() {
    assert!(NdArray::new(vec![2, 3], vec![0; 5]).is_err());
    assert!(NdArray::new(vec![2, 3], vec![0; 6]).is_ok());
    assert!(NdArray::new(vec![usize::MAX, usize::MAX], Vec::new()).is_err());
}
