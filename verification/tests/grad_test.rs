use autograd::array::NdArray;
use autograd::binary_ops::{AddOp, InplaceAddOp, InplaceMulOp, MulOp};
use autograd::context::Context;
use autograd::error::EvalError;
use autograd::gradient::grad;
use autograd::op::OpKind;
use autograd::runtime::eval;
use autograd::tensor::Graph;

fn arr(shape: Vec<usize>, data: Vec<i64>) -> NdArray {
    NdArray::new(shape, data).unwrap()
}

#[test]
fn test_eval_add_through_graph() {
    let mut g = Graph::new();
    let mut ctx = Context::new();
    let x = g.placeholder(Some(vec![2]));
    let v = ctx.variable(&mut g, arr(vec![2], vec![2, 2]));
    let y = g.apply(OpKind::Add(AddOp), vec![x, v]).unwrap();
    ctx.feed_input(&g, x, arr(vec![2], vec![1, 1])).unwrap();
    let out = eval(&g, &ctx, &vec![y]).unwrap();
    assert_eq!(out[0].data, vec![3, 3]);
    assert_eq!(ctx.list_vars(), vec![v]);
}

#[test]
fn test_unfed_placeholder_is_fatal() {
    let mut g = Graph::new();
    let ctx = Context::new();
    let x = g.placeholder(None);
    assert_eq!(eval(&g, &ctx, &vec![x]), Err(EvalError::UnfedPlaceholder));
}

#[test]
fn test_feed_errors() {
    let mut g = Graph::new();
    let mut ctx = Context::new();
    let c = ctx.constant(&mut g, arr(vec![1], vec![5]));
    // feeding a non-placeholder node is a usage error
    assert_eq!(
        ctx.feed_input(&g, c, arr(vec![1], vec![1])),
        Err(EvalError::NonPlaceholderFeed)
    );
    // a fed value must match the placeholder's declared shape
    let p = g.placeholder(Some(vec![2, 2]));
    assert_eq!(
        ctx.feed_input(&g, p, arr(vec![3], vec![1, 2, 3])),
        Err(EvalError::ShapeMismatch)
    );
    // but feed_input_unchecked skips the shape check
    ctx.feed_input_unchecked(&g, p, arr(vec![3], vec![1, 2, 3])).unwrap();
    let out = eval(&g, &ctx, &vec![p]).unwrap();
    assert_eq!(out[0].data, vec![1, 2, 3]);
}

#[test]
fn test_multi_consumer_gradient_summation() {
    // y = x + x: both consumers contribute, so the gradient of y with
    // respect to x evaluates to 2 times the (all-ones) seed gradient
    let mut g = Graph::new();
    let mut ctx = Context::new();
    let x = g.placeholder(None);
    let y = g.apply(OpKind::Add(AddOp), vec![x, x]).unwrap();
    let gs = grad(&mut g, y, &vec![x]);
    let gx = gs[0].expect("x influences y, so a gradient node must exist");
    ctx.feed_input_unchecked(&g, x, arr(vec![3], vec![5, -1, 7])).unwrap();
    let out = eval(&g, &ctx, &vec![gx]).unwrap();
    assert_eq!(out[0].shape, vec![3]);
    assert_eq!(out[0].data, vec![2, 2, 2]);
}

#[test]
fn test_inplace_arithmetic_parity() {
    // gradients of in-place add equal gradients of ordinary add
    let mut g = Graph::new();
    let mut ctx = Context::new();
    let x = g.placeholder(None);
    let v = ctx.variable(&mut g, arr(vec![2], vec![3, 4]));
    let y_plain = g.apply(OpKind::Add(AddOp), vec![x, v]).unwrap();
    let y_inplace = g.apply(OpKind::InplaceAdd(InplaceAddOp), vec![x, v]).unwrap();
    let g1 = grad(&mut g, y_plain, &vec![x])[0].unwrap();
    let g2 = grad(&mut g, y_inplace, &vec![x])[0].unwrap();
    ctx.feed_input_unchecked(&g, x, arr(vec![2], vec![10, 20])).unwrap();
    let out = eval(&g, &ctx, &vec![g1, g2]).unwrap();
    assert_eq!(out[0].data, out[1].data);
    assert_eq!(out[0].data, vec![1, 1]);

    // in-place multiply must refuse to propagate any gradient
    let y_mul = g.apply(OpKind::InplaceMul(InplaceMulOp), vec![x, v]).unwrap();
    let gm = grad(&mut g, y_mul, &vec![x, v]);
    assert!(gm[0].is_none());
    assert!(gm[1].is_none());
}

#[test]
fn test_higher_order_differentiation() {
    // second derivative of x * x is the constant 2
    let mut g = Graph::new();
    let mut ctx = Context::new();
    let x = g.placeholder(None);
    let y = g.apply(OpKind::Mul(MulOp), vec![x, x]).unwrap();
    let g1 = grad(&mut g, y, &vec![x])[0].unwrap();
    let g2 = grad(&mut g, g1, &vec![x])[0].unwrap();
    ctx.feed_input_unchecked(&g, x, arr(vec![1], vec![3])).unwrap();
    let out = eval(&g, &ctx, &vec![g1, g2]).unwrap();
    // first derivative: 2x = 6; second derivative: 2
    assert_eq!(out[0].data, vec![6]);
    assert_eq!(out[1].data, vec![2]);
}

#[test]
fn test_stop_gradient_blocks_flow() {
    let mut g = Graph::new();
    let mut ctx = Context::new();
    let x = g.placeholder(None);
    let s = g.apply(OpKind::StopGradient, vec![x]).unwrap();
    let y = g.apply(OpKind::Add(AddOp), vec![s, s]).unwrap();
    let gs = grad(&mut g, y, &vec![x]);
    assert!(gs[0].is_none());
    // while the forward value passes straight through
    ctx.feed_input_unchecked(&g, x, arr(vec![2], vec![4, 5])).unwrap();
    let out = eval(&g, &ctx, &vec![s]).unwrap();
    assert_eq!(out[0].data, vec![4, 5]);
}

#[test]
fn test_broadcast_gradient_reduces_to_operand_shape() {
    // y = x + v with x of shape (2,1) against v of shape (2,3): the
    // gradient delivered to x folds the broadcast axis back down
    let mut g = Graph::new();
    let mut ctx = Context::new();
    let x = g.placeholder(None);
    let v = ctx.variable(&mut g, arr(vec![2, 3], vec![0, 0, 0, 0, 0, 0]));
    let y = g.apply(OpKind::Add(AddOp), vec![x, v]).unwrap();
    let gx = grad(&mut g, y, &vec![x])[0].unwrap();
    ctx.feed_input_unchecked(&g, x, arr(vec![2, 1], vec![1, 2])).unwrap();
    let out = eval(&g, &ctx, &vec![gx]).unwrap();
    assert_eq!(out[0].shape, vec![2, 1]);
    assert_eq!(out[0].data, vec![3, 3]);
}

#[test]
fn test_second_order_through_broadcast() {
    // the reduction op's own gradient re-expands, so differentiating a
    // broadcast gradient again still works
    let mut g = Graph::new();
    let mut ctx = Context::new();
    let x = g.placeholder(None);
    let v = ctx.variable(&mut g, arr(vec![2, 3], vec![1, 2, 3, 4, 5, 6]));
    let y = g.apply(OpKind::Mul(MulOp), vec![x, v]).unwrap();
    let g1 = grad(&mut g, y, &vec![x])[0].unwrap();
    let g2 = grad(&mut g, g1, &vec![x]);
    ctx.feed_input_unchecked(&g, x, arr(vec![2, 1], vec![10, 20])).unwrap();
    let out = eval(&g, &ctx, &vec![g1]).unwrap();
    // the seed is reduced to x's shape (summing the broadcast axis to 3 per
    // row) before the product rule multiplies it back against v
    assert_eq!(out[0].shape, vec![2, 3]);
    assert_eq!(out[0].data, vec![3, 6, 9, 12, 15, 18]);
    // g1 does not depend on x, so the second derivative is absent or zero
    if let Some(n) = g2[0] {
        let o2 = eval(&g, &ctx, &vec![n]).unwrap();
        assert!(o2[0].data.iter().all(|&z| z == 0));
    }
}
