use vstd::prelude::*;

use crate::binary_ops::{AddOp, PreprocessBinOpGrad, PreprocessBinOpGradGrad};
use crate::conv2d_transpose::{Conv2D, Conv2DTransposeFilterGrad};
use crate::op::OpKind;
use crate::runtime::is_leaf;
use crate::tensor::{Graph, NodeSpec};

verus! {

/// An internal node with one input and no declared shape.
pub open spec fn node1(op: OpKind, a: usize) -> NodeSpec {
    NodeSpec { op, inputs: seq![a], shape: None, differentiable: true }
}

/// An internal node with two inputs and no declared shape.
pub open spec fn node2(op: OpKind, a: usize, b: usize) -> NodeSpec {
    NodeSpec { op, inputs: seq![a, b], shape: None, differentiable: true }
}

/// An internal node with three inputs and no declared shape.
pub open spec fn node3(op: OpKind, a: usize, b: usize, c: usize) -> NodeSpec {
    NodeSpec { op, inputs: seq![a, b, c], shape: None, differentiable: true }
}

/// The node computing the shape of node `x`.
pub open spec fn shape_node(x: usize) -> NodeSpec {
    node1(OpKind::ShapeOf, x)
}

/// The four nodes that reconcile a broadcast binary op's incoming gradient
/// with both operand shapes: each operand gets a shape node and a
/// reduction of `gy` to that shape.  `base` is the arena index the first
/// appended node receives.
pub open spec fn preprocess_nodes(x0: usize, x1: usize, gy: usize, base: int) -> Seq<NodeSpec> {
    seq![
        shape_node(x0),
        node2(OpKind::PreprocessBinOpGrad(PreprocessBinOpGrad), gy, base as usize),
        shape_node(x1),
        node2(OpKind::PreprocessBinOpGrad(PreprocessBinOpGrad), gy, (base + 2) as usize),
    ]
}

/// The backward rule of every op: the nodes it appends (the first getting
/// index `base`) and, per input slot, the node carrying that input's
/// gradient contribution, or `None` where no gradient flows.
///
/// In-place add/subtract propagate exactly as their ordinary counterparts;
/// in-place multiply/divide yield no gradient for either operand, because
/// the in-place mutation destroys the operand value the product and
/// quotient rules need.  The reduction/expansion pair are each other's
/// backward rule, which is what makes gradients of broadcast ops
/// re-differentiable.
pub open spec fn op_grad_spec(op: OpKind, inputs: Seq<usize>, gy: usize, base: int) -> (
    Seq<NodeSpec>,
    Seq<Option<usize>>,
) {
    if !grad_arity_ok(op, inputs.len() as int) {
        (Seq::<NodeSpec>::empty(), Seq::new(inputs.len(), |j: int| None::<usize>))
    } else {
        match op {
        OpKind::Add(_) | OpKind::InplaceAdd(_) => (
            preprocess_nodes(inputs[0], inputs[1], gy, base),
            seq![Some((base + 1) as usize), Some((base + 3) as usize)],
        ),
        OpKind::Sub(_) | OpKind::InplaceSub(_) => (
            preprocess_nodes(inputs[0], inputs[1], gy, base).push(
                node1(OpKind::Neg, (base + 3) as usize),
            ),
            seq![Some((base + 1) as usize), Some((base + 4) as usize)],
        ),
        OpKind::Mul(_) => (
            preprocess_nodes(inputs[0], inputs[1], gy, base).push(
                node2(OpKind::Mul(crate::binary_ops::MulOp), (base + 1) as usize, inputs[1]),
            ).push(node2(OpKind::Mul(crate::binary_ops::MulOp), (base + 3) as usize, inputs[0])),
            seq![Some((base + 4) as usize), Some((base + 5) as usize)],
        ),
        OpKind::Div(_) => (
            preprocess_nodes(inputs[0], inputs[1], gy, base).push(
                node2(OpKind::Div(crate::binary_ops::DivOp), (base + 1) as usize, inputs[1]),
            ).push(node1(OpKind::Neg, inputs[0])).push(
                node2(OpKind::Mul(crate::binary_ops::MulOp), (base + 5) as usize, (base
                    + 3) as usize),
            ).push(node2(OpKind::Mul(crate::binary_ops::MulOp), inputs[1], inputs[1])).push(
                node2(OpKind::Div(crate::binary_ops::DivOp), (base + 6) as usize, (base
                    + 7) as usize),
            ),
            seq![Some((base + 4) as usize), Some((base + 8) as usize)],
        ),
        OpKind::InplaceMul(_) | OpKind::InplaceDiv(_) => (
            Seq::<NodeSpec>::empty(),
            seq![None, None],
        ),
        OpKind::PreprocessBinOpGrad(_) => (
            seq![
                shape_node(inputs[0]),
                node2(
                    OpKind::PreprocessBinOpGradGrad(PreprocessBinOpGradGrad),
                    gy,
                    base as usize,
                ),
            ],
            seq![Some((base + 1) as usize), None],
        ),
        OpKind::PreprocessBinOpGradGrad(_) => (
            seq![
                shape_node(inputs[0]),
                node2(OpKind::PreprocessBinOpGrad(PreprocessBinOpGrad), gy, base as usize),
            ],
            seq![Some((base + 1) as usize), None],
        ),
        OpKind::Neg => (seq![node1(OpKind::Neg, gy)], seq![Some(base as usize)]),
        OpKind::Conv2DTranspose(c) => (
            seq![
                node2(
                    OpKind::Conv2D(Conv2D { pad: c.pad, stride: c.stride, dilation: c.dilation }),
                    gy,
                    inputs[1],
                ),
                node1(OpKind::StopGradient, inputs[1]),
                node3(
                    OpKind::Conv2DTransposeFilterGrad(
                        Conv2DTransposeFilterGrad {
                            pad: c.pad,
                            stride: c.stride,
                            dilation: c.dilation,
                        },
                    ),
                    gy,
                    inputs[0],
                    (base + 1) as usize,
                ),
            ],
            seq![Some(base as usize), Some((base + 2) as usize)],
        ),
        OpKind::Conv2DTransposeFilterGrad(c) => (
            seq![
                node2(
                    OpKind::Conv2DTranspose(
                        crate::conv2d_transpose::Conv2DTranspose {
                            pad: c.pad,
                            stride: c.stride,
                            dilation: c.dilation,
                        },
                    ),
                    inputs[1],
                    gy,
                ),
                node2(
                    OpKind::Conv2D(Conv2D { pad: c.pad, stride: c.stride, dilation: c.dilation }),
                    inputs[0],
                    gy,
                ),
            ],
            seq![Some(base as usize), Some((base + 1) as usize), None],
        ),
        _ => (Seq::<NodeSpec>::empty(), Seq::new(inputs.len(), |j: int| None::<usize>)),
        }
    }
}

/// The input arity each backward rule expects.
pub open spec fn grad_arity_ok(op: OpKind, n: int) -> bool {
    match op {
        OpKind::Add(_) | OpKind::InplaceAdd(_) | OpKind::Sub(_) | OpKind::InplaceSub(_)
            | OpKind::Mul(_) | OpKind::Div(_) | OpKind::InplaceMul(_) | OpKind::InplaceDiv(_)
            | OpKind::PreprocessBinOpGrad(_) | OpKind::PreprocessBinOpGradGrad(_)
            | OpKind::Conv2DTranspose(_) => n == 2,
        OpKind::Conv2DTransposeFilterGrad(_) => n == 3,
        OpKind::Neg => n == 1,
        _ => true,
    }
}

/// Adds one gradient contribution to an input's running accumulation: the
/// first contribution is stored as-is; a later one is summed with the
/// accumulated gradient through a fresh `Add` node, so a node consumed by
/// several downstream nodes receives the sum of all their contributions.
pub open spec fn acc_one(g: Seq<NodeSpec>, acc: Seq<Option<usize>>, slot: int, c: usize) -> (
    Seq<NodeSpec>,
    Seq<Option<usize>>,
) {
    match acc[slot] {
        None => (g, acc.update(slot, Some(c))),
        Some(prev) => (
            g.push(node2(OpKind::Add(AddOp), prev, c)),
            acc.update(slot, Some(g.len() as usize)),
        ),
    }
}

/// Distributes the first `j` per-input contributions of a backward rule
/// into the accumulations of the consumed nodes.
pub open spec fn distribute(
    g: Seq<NodeSpec>,
    acc: Seq<Option<usize>>,
    inputs: Seq<usize>,
    outs: Seq<Option<usize>>,
    j: nat,
) -> (Seq<NodeSpec>, Seq<Option<usize>>)
    decreases j,
{
    if j == 0 {
        (g, acc)
    } else {
        let r = distribute(g, acc, inputs, outs, (j - 1) as nat);
        match outs[j - 1] {
            None => r,
            Some(c) => {
                if 0 <= inputs[j - 1] < r.1.len() {
                    acc_one(r.0, r.1, inputs[j - 1] as int, c)
                } else {
                    r
                }
            },
        }
    }
}

/// Processes one node of the reverse walk: a node with an accumulated
/// gradient invokes its backward rule and distributes the contributions;
/// leaves, non-differentiable nodes and unreached nodes are skipped.
pub open spec fn process(g: Seq<NodeSpec>, acc: Seq<Option<usize>>, idx: int) -> (
    Seq<NodeSpec>,
    Seq<Option<usize>>,
) {
    let node = g[idx];
    if 0 <= idx < acc.len() && acc[idx] is Some && node.differentiable && !is_leaf(node.op)
        && node.inputs.len() > 0 {
        let r = op_grad_spec(node.op, node.inputs, acc[idx].unwrap(), g.len() as int);
        distribute(g + r.0, acc, node.inputs, r.1, r.1.len())
    } else {
        (g, acc)
    }
}

/// The reverse walk over nodes `hi`, `hi - 1`, ..., `hi - k + 1`: strictly
/// descending arena order, so every consumer of a node is processed — and
/// has contributed its gradient — before the node itself.
pub open spec fn backward(
    g: Seq<NodeSpec>,
    acc: Seq<Option<usize>>,
    hi: int,
    k: nat,
) -> (Seq<NodeSpec>, Seq<Option<usize>>)
    decreases k,
{
    if k == 0 {
        (g, acc)
    } else {
        let r = backward(g, acc, hi, (k - 1) as nat);
        process(r.0, r.1, hi - (k - 1))
    }
}

/// The whole construction: seed the source with a ones-valued node of its
/// own (dynamically computed) shape, walk the arena in reverse from the
/// source, and leave each original node's accumulated gradient node — or
/// `None` where no gradient reached it.
/// The initial accumulation: only the source carries a gradient, the
/// freshly built ones-valued seed node.
pub open spec fn seed_acc(n: nat, source: int, seed: usize) -> Seq<Option<usize>> {
    Seq::new(
        n,
        |i: int|
            if i == source {
                Some(seed)
            } else {
                None::<usize>
            },
    )
}

pub open spec fn grad_build_spec(g0: Seq<NodeSpec>, source: int) -> (
    Seq<NodeSpec>,
    Seq<Option<usize>>,
) {
    let g1 = g0.push(shape_node(source as usize)).push(node1(OpKind::Ones, g0.len() as usize));
    backward(g1, seed_acc(g0.len(), source, (g0.len() + 1) as usize), source, (source + 1) as nat)
}

/// Appends a one-input internal node.
fn push1(g: &mut Graph, op: OpKind, a: usize) -> (id: usize)
    requires
        old(g).wf(),
        (a as int) < old(g)@.len(),
    ensures
        id as int == old(g)@.len(),
        final(g)@ == old(g)@.push(node1(op, a)),
        final(g).wf(),
{
    let v: Vec<usize> = vec![a];
    proof {
        assert(v@ =~= seq![a]);
    }
    g.add_node(op, v, None, true)
}

/// Appends a two-input internal node.
fn push2(g: &mut Graph, op: OpKind, a: usize, b: usize) -> (id: usize)
    requires
        old(g).wf(),
        (a as int) < old(g)@.len(),
        (b as int) < old(g)@.len(),
    ensures
        id as int == old(g)@.len(),
        final(g)@ == old(g)@.push(node2(op, a, b)),
        final(g).wf(),
{
    let v: Vec<usize> = vec![a, b];
    proof {
        assert(v@ =~= seq![a, b]);
    }
    g.add_node(op, v, None, true)
}

/// Appends a three-input internal node.
fn push3(g: &mut Graph, op: OpKind, a: usize, b: usize, c: usize) -> (id: usize)
    requires
        old(g).wf(),
        (a as int) < old(g)@.len(),
        (b as int) < old(g)@.len(),
        (c as int) < old(g)@.len(),
    ensures
        id as int == old(g)@.len(),
        final(g)@ == old(g)@.push(node3(op, a, b, c)),
        final(g).wf(),
{
    let v: Vec<usize> = vec![a, b, c];
    proof {
        assert(v@ =~= seq![a, b, c]);
    }
    g.add_node(op, v, None, true)
}

/// Invokes one node's backward rule, appending exactly the nodes
/// [`op_grad_spec`] describes and returning the per-input contributions.
#[verifier::rlimit(100)]
fn emit_grad(g: &mut Graph, op: OpKind, inputs: &Vec<usize>, gy: usize) -> (outs: Vec<
    Option<usize>,
>)
    requires
        old(g).wf(),
        forall|j: int| 0 <= j < inputs@.len() ==> (#[trigger] inputs@[j] as int) < old(g)@.len(),
        (gy as int) < old(g)@.len(),
    ensures
        final(g)@ == old(g)@ + op_grad_spec(op, inputs@, gy, old(g)@.len() as int).0,
        outs@ == op_grad_spec(op, inputs@, gy, old(g)@.len() as int).1,
        outs@.len() == inputs@.len(),
        final(g).wf(),
        forall|j: int|
            0 <= j < outs@.len() ==> ((#[trigger] outs@[j]) matches Some(c) ==> (c as int)
                < final(g)@.len()),
{
    let ghost g0 = g@;
    let ghost base = g@.len() as int;
    let arity_ok = match op {
        OpKind::Add(_) | OpKind::InplaceAdd(_) | OpKind::Sub(_) | OpKind::InplaceSub(_)
        | OpKind::Mul(_) | OpKind::Div(_) | OpKind::InplaceMul(_) | OpKind::InplaceDiv(_)
        | OpKind::PreprocessBinOpGrad(_) | OpKind::PreprocessBinOpGradGrad(_)
        | OpKind::Conv2DTranspose(_) => inputs.len() == 2,
        OpKind::Conv2DTransposeFilterGrad(_) => inputs.len() == 3,
        OpKind::Neg => inputs.len() == 1,
        _ => true,
    };
    if !arity_ok {
        let mut outs: Vec<Option<usize>> = Vec::new();
        let m = inputs.len();
        let mut j: usize = 0;
        while j < m
            invariant
                0 <= j <= m,
                outs@.len() == j,
                forall|q: int| 0 <= q < j ==> (#[trigger] outs@[q]) is None,
            decreases m - j,
        {
            outs.push(None);
            j = j + 1;
        }
        proof {
            assert(g@ =~= g0 + Seq::<NodeSpec>::empty());
            assert(outs@ =~= Seq::new(inputs@.len(), |j: int| None::<usize>));
        }
        return outs;
    }
    match op {
        OpKind::Add(_) | OpKind::InplaceAdd(_) => {
            let s0 = push1(g, OpKind::ShapeOf, inputs[0]);
            let r0 = push2(g, OpKind::PreprocessBinOpGrad(PreprocessBinOpGrad), gy, s0);
            let s1 = push1(g, OpKind::ShapeOf, inputs[1]);
            let r1 = push2(g, OpKind::PreprocessBinOpGrad(PreprocessBinOpGrad), gy, s1);
            let outs: Vec<Option<usize>> = vec![Some(r0), Some(r1)];
            proof {
                assert(g@ =~= g0 + preprocess_nodes(inputs@[0], inputs@[1], gy, base));
                assert(outs@ =~= seq![Some((base + 1) as usize), Some((base + 3) as usize)]);
            }
            outs
        },
        OpKind::Sub(_) | OpKind::InplaceSub(_) => {
            let s0 = push1(g, OpKind::ShapeOf, inputs[0]);
            let r0 = push2(g, OpKind::PreprocessBinOpGrad(PreprocessBinOpGrad), gy, s0);
            let s1 = push1(g, OpKind::ShapeOf, inputs[1]);
            let r1 = push2(g, OpKind::PreprocessBinOpGrad(PreprocessBinOpGrad), gy, s1);
            let ng = push1(g, OpKind::Neg, r1);
            let outs: Vec<Option<usize>> = vec![Some(r0), Some(ng)];
            proof {
                assert(g@ =~= g0 + preprocess_nodes(inputs@[0], inputs@[1], gy, base).push(
                    node1(OpKind::Neg, (base + 3) as usize),
                ));
                assert(outs@ =~= seq![Some((base + 1) as usize), Some((base + 4) as usize)]);
            }
            outs
        },
        OpKind::Mul(_) => {
            let s0 = push1(g, OpKind::ShapeOf, inputs[0]);
            let r0 = push2(g, OpKind::PreprocessBinOpGrad(PreprocessBinOpGrad), gy, s0);
            let s1 = push1(g, OpKind::ShapeOf, inputs[1]);
            let r1 = push2(g, OpKind::PreprocessBinOpGrad(PreprocessBinOpGrad), gy, s1);
            let m0 = push2(g, OpKind::Mul(crate::binary_ops::MulOp), r0, inputs[1]);
            let m1 = push2(g, OpKind::Mul(crate::binary_ops::MulOp), r1, inputs[0]);
            let outs: Vec<Option<usize>> = vec![Some(m0), Some(m1)];
            proof {
                assert(g@ =~= g0 + preprocess_nodes(inputs@[0], inputs@[1], gy, base).push(
                    node2(OpKind::Mul(crate::binary_ops::MulOp), (base + 1) as usize, inputs@[1]),
                ).push(
                    node2(OpKind::Mul(crate::binary_ops::MulOp), (base + 3) as usize, inputs@[0]),
                ));
                assert(outs@ =~= seq![Some((base + 4) as usize), Some((base + 5) as usize)]);
            }
            outs
        },
        OpKind::Div(_) => {
            let s0 = push1(g, OpKind::ShapeOf, inputs[0]);
            let r0 = push2(g, OpKind::PreprocessBinOpGrad(PreprocessBinOpGrad), gy, s0);
            let s1 = push1(g, OpKind::ShapeOf, inputs[1]);
            let r1 = push2(g, OpKind::PreprocessBinOpGrad(PreprocessBinOpGrad), gy, s1);
            let d0 = push2(g, OpKind::Div(crate::binary_ops::DivOp), r0, inputs[1]);
            let ng = push1(g, OpKind::Neg, inputs[0]);
            let ma = push2(g, OpKind::Mul(crate::binary_ops::MulOp), ng, r1);
            let mb = push2(g, OpKind::Mul(crate::binary_ops::MulOp), inputs[1], inputs[1]);
            let d1 = push2(g, OpKind::Div(crate::binary_ops::DivOp), ma, mb);
            let outs: Vec<Option<usize>> = vec![Some(d0), Some(d1)];
            proof {
                assert(g@ =~= g0 + preprocess_nodes(inputs@[0], inputs@[1], gy, base).push(
                    node2(OpKind::Div(crate::binary_ops::DivOp), (base + 1) as usize, inputs@[1]),
                ).push(node1(OpKind::Neg, inputs@[0])).push(
                    node2(OpKind::Mul(crate::binary_ops::MulOp), (base + 5) as usize, (base
                        + 3) as usize),
                ).push(node2(OpKind::Mul(crate::binary_ops::MulOp), inputs@[1], inputs@[1])).push(
                    node2(OpKind::Div(crate::binary_ops::DivOp), (base + 6) as usize, (base
                        + 7) as usize),
                ));
                assert(outs@ =~= seq![Some((base + 4) as usize), Some((base + 8) as usize)]);
            }
            outs
        },
        OpKind::InplaceMul(_) | OpKind::InplaceDiv(_) => {
            let outs: Vec<Option<usize>> = vec![None, None];
            proof {
                assert(g@ =~= g0 + Seq::<NodeSpec>::empty());
                assert(outs@ =~= seq![None::<usize>, None::<usize>]);
            }
            outs
        },
        OpKind::PreprocessBinOpGrad(_) => {
            let s0 = push1(g, OpKind::ShapeOf, inputs[0]);
            let gg = push2(g, OpKind::PreprocessBinOpGradGrad(PreprocessBinOpGradGrad), gy, s0);
            let outs: Vec<Option<usize>> = vec![Some(gg), None];
            proof {
                assert(g@ =~= g0 + seq![
                    shape_node(inputs@[0]),
                    node2(
                        OpKind::PreprocessBinOpGradGrad(PreprocessBinOpGradGrad),
                        gy,
                        base as usize,
                    ),
                ]);
                assert(outs@ =~= seq![Some((base + 1) as usize), None::<usize>]);
            }
            outs
        },
        OpKind::PreprocessBinOpGradGrad(_) => {
            let s0 = push1(g, OpKind::ShapeOf, inputs[0]);
            let rr = push2(g, OpKind::PreprocessBinOpGrad(PreprocessBinOpGrad), gy, s0);
            let outs: Vec<Option<usize>> = vec![Some(rr), None];
            proof {
                assert(g@ =~= g0 + seq![
                    shape_node(inputs@[0]),
                    node2(OpKind::PreprocessBinOpGrad(PreprocessBinOpGrad), gy, base as usize),
                ]);
                assert(outs@ =~= seq![Some((base + 1) as usize), None::<usize>]);
            }
            outs
        },
        OpKind::Neg => {
            let ng = push1(g, OpKind::Neg, gy);
            let outs: Vec<Option<usize>> = vec![Some(ng)];
            proof {
                assert(g@ =~= g0 + seq![node1(OpKind::Neg, gy)]);
                assert(outs@ =~= seq![Some(base as usize)]);
            }
            outs
        },
        OpKind::Conv2DTranspose(c) => {
            let gx = push2(
                g,
                OpKind::Conv2D(Conv2D { pad: c.pad, stride: c.stride, dilation: c.dilation }),
                gy,
                inputs[1],
            );
            let sg = push1(g, OpKind::StopGradient, inputs[1]);
            let gw = push3(
                g,
                OpKind::Conv2DTransposeFilterGrad(
                    Conv2DTransposeFilterGrad {
                        pad: c.pad,
                        stride: c.stride,
                        dilation: c.dilation,
                    },
                ),
                gy,
                inputs[0],
                sg,
            );
            let outs: Vec<Option<usize>> = vec![Some(gx), Some(gw)];
            proof {
                assert(g@ =~= g0 + op_grad_spec(op, inputs@, gy, base).0);
                assert(outs@ =~= op_grad_spec(op, inputs@, gy, base).1);
            }
            outs
        },
        OpKind::Conv2DTransposeFilterGrad(c) => {
            let ggy = push2(
                g,
                OpKind::Conv2DTranspose(
                    crate::conv2d_transpose::Conv2DTranspose {
                        pad: c.pad,
                        stride: c.stride,
                        dilation: c.dilation,
                    },
                ),
                inputs[1],
                gy,
            );
            let ggx = push2(
                g,
                OpKind::Conv2D(Conv2D { pad: c.pad, stride: c.stride, dilation: c.dilation }),
                inputs[0],
                gy,
            );
            let outs: Vec<Option<usize>> = vec![Some(ggy), Some(ggx), None];
            proof {
                assert(g@ =~= g0 + op_grad_spec(op, inputs@, gy, base).0);
                assert(outs@ =~= op_grad_spec(op, inputs@, gy, base).1);
            }
            outs
        },
        _ => {
            let mut outs: Vec<Option<usize>> = Vec::new();
            let m = inputs.len();
            let mut j: usize = 0;
            while j < m
                invariant
                    0 <= j <= m,
                    outs@.len() == j,
                    forall|q: int| 0 <= q < j ==> (#[trigger] outs@[q]) is None,
                decreases m - j,
            {
                outs.push(None);
                j = j + 1;
            }
            proof {
                assert(g@ =~= g0 + Seq::<NodeSpec>::empty());
                assert(outs@ =~= Seq::new(inputs@.len(), |j: int| None::<usize>));
            }
            outs
        },
    }
}

/// Distributes a backward rule's per-input contributions into the running
/// accumulations, exactly as [`distribute`] describes.
#[verifier::loop_isolation(false)]
fn apply_outs(
    g: &mut Graph,
    acc: &mut Vec<Option<usize>>,
    inputs: &Vec<usize>,
    outs: &Vec<Option<usize>>,
) -> (u: ())
    requires
        old(g).wf(),
        outs@.len() <= inputs@.len(),
        forall|j: int|
            0 <= j < inputs@.len() ==> (#[trigger] inputs@[j] as int) < old(acc)@.len(),
        forall|q: int|
            0 <= q < outs@.len() ==> ((#[trigger] outs@[q]) matches Some(c) ==> (c as int) < old(
                g,
            )@.len()),
        forall|q: int|
            0 <= q < old(acc)@.len() ==> ((#[trigger] old(acc)@[q]) matches Some(c) ==> (
            c as int) < old(g)@.len()),
    ensures
        final(g)@ == distribute(old(g)@, old(acc)@, inputs@, outs@, outs@.len() as nat).0,
        final(acc)@ == distribute(old(g)@, old(acc)@, inputs@, outs@, outs@.len() as nat).1,
        final(g).wf(),
        final(g)@.len() >= old(g)@.len(),
        forall|i: int| 0 <= i < old(g)@.len() ==> final(g)@[i] == old(g)@[i],
        final(acc)@.len() == old(acc)@.len(),
        forall|q: int|
            0 <= q < final(acc)@.len() ==> ((#[trigger] final(acc)@[q]) matches Some(c) ==> (
            c as int) < final(g)@.len()),
{
    let ghost ga = g@;
    let ghost accb = acc@;
    let m = outs.len();
    let mut j: usize = 0;
    while j < m
        invariant
            0 <= j <= m,
            acc@.len() == accb.len(),
            g@ == distribute(ga, accb, inputs@, outs@, j as nat).0,
            acc@ == distribute(ga, accb, inputs@, outs@, j as nat).1,
            g.wf(),
            g@.len() >= ga.len(),
            forall|i: int| 0 <= i < ga.len() ==> g@[i] == ga[i],
            forall|q: int|
                0 <= q < acc@.len() ==> ((#[trigger] acc@[q]) matches Some(c) ==> (c as int)
                    < g@.len()),
        decreases m - j,
    {
        match outs[j] {
            Some(c) => {
                let slot = inputs[j];
                match acc[slot] {
                    Some(prev) => {
                        let s = push2(g, OpKind::Add(AddOp), prev, c);
                        acc[slot] = Some(s);
                    },
                    None => {
                        acc[slot] = Some(c);
                    },
                }
            },
            None => {},
        }
        j = j + 1;
    }
    ()
}

/// Reverse-mode gradient construction: seeds the source node's gradient
/// with a ones-valued node of the source's shape, walks the arena from the
/// source downwards invoking each reached node's backward rule with its
/// fully-accumulated gradient, and returns, per requested target, the node
/// holding the gradient of the source with respect to that target — or
/// `None` where no gradient flows.  The gradient is itself a lazy
/// sub-graph, so it can be differentiated again.
#[verifier::loop_isolation(false)]
#[verifier::rlimit(100)]
pub fn grad(g: &mut Graph, source: usize, targets: &Vec<usize>) -> (r: Vec<Option<usize>>)
    requires
        old(g).wf(),
        (source as int) < old(g)@.len(),
        forall|k: int| 0 <= k < targets@.len() ==> (#[trigger] targets@[k] as int) < old(g)@.len(),
    ensures
        final(g)@ == grad_build_spec(old(g)@, source as int).0,
        final(g).wf(),
        final(g)@.len() >= old(g)@.len(),
        forall|i: int| 0 <= i < old(g)@.len() ==> final(g)@[i] == old(g)@[i],
        r@.len() == targets@.len(),
        forall|k: int|
            0 <= k < targets@.len() ==> r@[k] == grad_build_spec(old(g)@, source as int).1[#[trigger] targets@[k] as int],
{
    let ghost g0 = g@;
    let n0 = g.len();
    let sh = push1(g, OpKind::ShapeOf, source);
    let seed = push1(g, OpKind::Ones, sh);
    let ghost g1 = g@;
    let mut acc: Vec<Option<usize>> = Vec::new();
    let mut z: usize = 0;
    while z < n0
        invariant
            0 <= z <= n0,
            acc@.len() == z,
            forall|q: int| 0 <= q < z ==> (#[trigger] acc@[q]) is None,
        decreases n0 - z,
    {
        acc.push(None);
        z = z + 1;
    }
    acc[source] = Some(seed);
    let ghost acc0 = seed_acc(g0.len(), source as int, seed);
    proof {
        assert(g1 == g0.push(shape_node(source)).push(node1(OpKind::Ones, g0.len() as usize)));
        assert(acc@ =~= acc0);
        assert(backward(g1, acc0, source as int, 0) == (g1, acc0));
    }
    let mut idx: usize = source + 1;
    while idx > 0
        invariant
            0 <= idx <= source + 1,
            acc@.len() == n0,
            n0 == g0.len(),
            g@ == backward(g1, acc0, source as int, (source + 1 - idx) as nat).0,
            acc@ == backward(g1, acc0, source as int, (source + 1 - idx) as nat).1,
            g.wf(),
            g@.len() >= g1.len(),
            forall|i: int| 0 <= i < g1.len() ==> g@[i] == g1[i],
            forall|q: int|
                0 <= q < n0 ==> ((#[trigger] acc@[q]) matches Some(c) ==> (c as int) < g@.len()),
        decreases idx,
    {
        idx = idx - 1;
        let ghost st = backward(g1, acc0, source as int, (source - idx) as nat);
        let ghost stp = backward(g1, acc0, source as int, (source + 1 - idx) as nat);
        proof {
            assert(stp == process(st.0, st.1, idx as int));
            assert(g@[idx as int] == g1[idx as int]);
            assert(g1[idx as int] == g0[idx as int]);
        }
        let has_acc = match acc[idx] {
            Some(_) => true,
            None => false,
        };
        let node_is_leaf = match g.nodes[idx].op {
            OpKind::Placeholder => true,
            OpKind::Variable => true,
            OpKind::Constant => true,
            _ => false,
        };
        proof {
            assert(g@[idx as int] == g.nodes@[idx as int]@);
        }
        if has_acc && g.nodes[idx].differentiable && !node_is_leaf && g.nodes[idx].inputs.len()
            > 0 {
            let gy = match acc[idx] {
                Some(v) => v,
                None => {
                    proof {
                        assert(false);
                    }
                    0
                },
            };
            let op = g.nodes[idx].op;
            let inputs = g.nodes[idx].inputs.clone();
            proof {
                assert(inputs@ == g@[idx as int].inputs);
                assert(forall|j: int|
                    0 <= j < inputs@.len() ==> (#[trigger] inputs@[j] as int) < idx as int);
            }
            let ghost gb = g@;
            let outs = emit_grad(g, op, &inputs, gy);
            let ghost ga = g@;
            let ghost outspec = op_grad_spec(op, inputs@, gy, gb.len() as int);
            apply_outs(g, &mut acc, &inputs, &outs);
            proof {
                assert(g@ == stp.0);
                assert(acc@ == stp.1);
            }
        } else {
            proof {
                assert(stp.0 == st.0 && stp.1 == st.1);
            }
        }
    }
    proof {
        assert((source as int) as usize == source);
        assert(g1 == g0.push(shape_node(source)).push(node1(OpKind::Ones, g0.len() as usize)));
        let sg1 = g0.push(shape_node((source as int) as usize)).push(
            node1(OpKind::Ones, g0.len() as usize),
        );
        assert(sg1 == g1);
        assert(seed == (g0.len() + 1) as usize);
        assert(grad_build_spec(g0, source as int) == backward(
            g1,
            acc0,
            source as int,
            (source as int + 1) as nat,
        ));
        assert(g@ == grad_build_spec(g0, source as int).0);
        assert(acc@ == grad_build_spec(g0, source as int).1);
        assert forall|i: int| 0 <= i < g0.len() implies g@[i] == g0[i] by {
            assert(g@[i] == g1[i]);
            assert(g1[i] == g0[i]);
        };
    }
    let nt = targets.len();
    let mut out: Vec<Option<usize>> = Vec::new();
    let mut k: usize = 0;
    while k < nt
        invariant
            0 <= k <= nt,
            out@.len() == k,
            forall|q: int|
                0 <= q < k ==> out@[q] == grad_build_spec(g0, source as int).1[#[trigger] targets@[q] as int],
        decreases nt - k,
    {
        let t = targets[k];
        out.push(acc[t]);
        k = k + 1;
    }
    out
}

/// Multi-consumer gradient summation (law), at the accumulation level: when
/// a node receives two gradient contributions — as the input of `y = x + x`
/// does, one per consumer edge — its accumulated gradient is a fresh `Add`
/// node applying the catalog's addition to exactly those two contribution
/// nodes; evaluated, that node is their elementwise sum.
pub proof fn lemma_contributions_sum(
    g: Seq<NodeSpec>,
    acc: Seq<Option<usize>>,
    slot: int,
    c1: usize,
    c2: usize,
)
    requires
        0 <= slot < acc.len(),
        acc[slot] is None,
    ensures
        acc_one(g, acc, slot, c1).1[slot] == Some(c1),
        acc_one(acc_one(g, acc, slot, c1).0, acc_one(g, acc, slot, c1).1, slot, c2).1[slot]
            == Some(g.len() as usize),
        acc_one(acc_one(g, acc, slot, c1).0, acc_one(g, acc, slot, c1).1, slot, c2).0 == g.push(
            node2(OpKind::Add(AddOp), c1, c2),
        ),
{
    assert(acc.update(slot, Some(c1))[slot] == Some(c1));
}

/// In-place arithmetic parity (law): the gradient construction of in-place
/// addition is identical to ordinary addition's — same appended nodes, same
/// contributions — since the mathematical operation is unchanged.
pub proof fn lemma_inplace_add_grad_parity(inputs: Seq<usize>, gy: usize, base: int)
    ensures
        op_grad_spec(OpKind::InplaceAdd(crate::binary_ops::InplaceAddOp), inputs, gy, base)
            == op_grad_spec(OpKind::Add(AddOp), inputs, gy, base),
{
}

/// In-place arithmetic parity (law): in-place subtraction differentiates
/// exactly as ordinary subtraction.
pub proof fn lemma_inplace_sub_grad_parity(inputs: Seq<usize>, gy: usize, base: int)
    ensures
        op_grad_spec(OpKind::InplaceSub(crate::binary_ops::InplaceSubOp), inputs, gy, base)
            == op_grad_spec(OpKind::Sub(crate::binary_ops::SubOp), inputs, gy, base),
{
}

/// In-place multiply and divide yield no gradient for either operand and
/// build no nodes: the in-place mutation destroys the operand value the
/// product and quotient rules would need.
pub proof fn lemma_inplace_mul_div_no_gradient(inputs: Seq<usize>, gy: usize, base: int)
    requires
        inputs.len() == 2,
    ensures
        op_grad_spec(OpKind::InplaceMul(crate::binary_ops::InplaceMulOp), inputs, gy, base).0
            =~= Seq::<NodeSpec>::empty(),
        op_grad_spec(OpKind::InplaceMul(crate::binary_ops::InplaceMulOp), inputs, gy, base).1
            =~= seq![None::<usize>, None::<usize>],
        op_grad_spec(OpKind::InplaceDiv(crate::binary_ops::InplaceDivOp), inputs, gy, base).0
            =~= Seq::<NodeSpec>::empty(),
        op_grad_spec(OpKind::InplaceDiv(crate::binary_ops::InplaceDivOp), inputs, gy, base).1
            =~= seq![None::<usize>, None::<usize>],
{
}

} // verus!
