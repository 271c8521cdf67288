use vstd::prelude::*;

use crate::array::{ArrSpec, NdArray};
use crate::context::{lookup, Context};
use crate::error::EvalError;
use crate::op::{compute_node, op_compute_spec, CompSpec, ComputeVal, OpKind};
use crate::tensor::{graph_wf, Graph, NodeSpec};

verus! {

/// Whether a node's op is a leaf whose value the context supplies.
pub open spec fn is_leaf(op: OpKind) -> bool {
    op is Placeholder || op is Variable || op is Constant
}

/// All of a node's inputs have a value in `prev`.
pub open spec fn inputs_ready(prev: Seq<Option<ArrSpec>>, inputs: Seq<usize>) -> bool {
    forall|j: int|
        0 <= j < inputs.len() ==> (inputs[j] as int) < prev.len() && (#[trigger] prev[inputs[
            j] as int]) is Some
}

/// The materialised input values of a node.
pub open spec fn gather(prev: Seq<Option<ArrSpec>>, inputs: Seq<usize>) -> Seq<ArrSpec> {
    Seq::new(inputs.len(), |j: int| prev[inputs[j] as int].unwrap())
}

/// The value of node `i` given the values of all earlier nodes: leaves read
/// the context, internal nodes apply their op to their materialised inputs,
/// and a delegate marker resolves to the named input's value.
pub open spec fn step(
    g: Seq<NodeSpec>,
    vars: Seq<(usize, ArrSpec)>,
    feeds: Seq<(usize, ArrSpec)>,
    prev: Seq<Option<ArrSpec>>,
    i: int,
) -> Option<ArrSpec> {
    let node = g[i];
    if node.op is Placeholder {
        lookup(feeds, i)
    } else if node.op is Variable || node.op is Constant {
        lookup(vars, i)
    } else if inputs_ready(prev, node.inputs) {
        let xs = gather(prev, node.inputs);
        match op_compute_spec(node.op, xs) {
            Some(CompSpec::Val(v)) => Some(v),
            Some(CompSpec::Delg(d)) => {
                if 0 <= d < xs.len() {
                    Some(xs[d])
                } else {
                    None
                }
            },
            None => None,
        }
    } else {
        None
    }
}

/// The values of the first `n` nodes, computed in arena order — a
/// topological order, since inputs always have smaller indices.
pub open spec fn vals_upto(
    g: Seq<NodeSpec>,
    vars: Seq<(usize, ArrSpec)>,
    feeds: Seq<(usize, ArrSpec)>,
    n: nat,
) -> Seq<Option<ArrSpec>>
    decreases n,
{
    if n == 0 {
        Seq::<Option<ArrSpec>>::empty()
    } else {
        let prev = vals_upto(g, vars, feeds, (n - 1) as nat);
        prev.push(step(g, vars, feeds, prev, n - 1))
    }
}

/// The value of node `i`, or `None` when evaluating it fails.
pub open spec fn node_val(
    g: Seq<NodeSpec>,
    vars: Seq<(usize, ArrSpec)>,
    feeds: Seq<(usize, ArrSpec)>,
    i: int,
) -> Option<ArrSpec> {
    vals_upto(g, vars, feeds, (i + 1) as nat)[i]
}

pub proof fn lemma_vals_upto_len(
    g: Seq<NodeSpec>,
    vars: Seq<(usize, ArrSpec)>,
    feeds: Seq<(usize, ArrSpec)>,
    n: nat,
)
    ensures
        vals_upto(g, vars, feeds, n).len() == n,
    decreases n,
{
    if n > 0 {
        lemma_vals_upto_len(g, vars, feeds, (n - 1) as nat);
    }
}

/// Evaluating more nodes does not change the values of earlier ones.
pub proof fn lemma_vals_upto_prefix(
    g: Seq<NodeSpec>,
    vars: Seq<(usize, ArrSpec)>,
    feeds: Seq<(usize, ArrSpec)>,
    m: nat,
    n: nat,
    i: int,
)
    requires
        0 <= i < m <= n,
    ensures
        vals_upto(g, vars, feeds, n)[i] == vals_upto(g, vars, feeds, m)[i],
    decreases n,
{
    lemma_vals_upto_len(g, vars, feeds, n);
    lemma_vals_upto_len(g, vars, feeds, (n - 1) as nat);
    if m < n {
        lemma_vals_upto_prefix(g, vars, feeds, m, (n - 1) as nat, i);
    }
}

/// So `node_val` agrees with any long-enough evaluation.
pub proof fn lemma_node_val_agrees(
    g: Seq<NodeSpec>,
    vars: Seq<(usize, ArrSpec)>,
    feeds: Seq<(usize, ArrSpec)>,
    n: nat,
    i: int,
)
    requires
        0 <= i < n,
    ensures
        vals_upto(g, vars, feeds, n)[i] == node_val(g, vars, feeds, i),
{
    lemma_vals_upto_prefix(g, vars, feeds, (i + 1) as nat, n, i);
}

/// Whether `x` is one of the requested outputs.
pub open spec fn is_target(targets: Seq<usize>, x: int) -> bool {
    exists|k: int| 0 <= k < targets.len() && targets[k] as int == x
}

/// The marking invariant: a marked node is a target, or an input of a
/// marked internal node further up the arena.
pub open spec fn marks_ok(g: Seq<NodeSpec>, targets: Seq<usize>, needed: Seq<bool>) -> bool {
    forall|x: int|
        0 <= x < needed.len() && #[trigger] needed[x] ==> is_target(targets, x) || (exists|y: int|
            x < y < needed.len() && needed[y] && !is_leaf(g[y].op) && g[y].inputs.contains(
                x as usize,
            ))
}

/// A needed node that fails to evaluate dooms some requested target: its
/// failure propagates up the chain of consumers that made it needed.
#[verifier::rlimit(100)]
pub proof fn lemma_failure_reaches_target(
    g: Seq<NodeSpec>,
    vars: Seq<(usize, ArrSpec)>,
    feeds: Seq<(usize, ArrSpec)>,
    targets: Seq<usize>,
    needed: Seq<bool>,
    x: int,
)
    requires
        graph_wf(g),
        needed.len() == g.len(),
        g.len() <= usize::MAX as int,
        marks_ok(g, targets, needed),
        0 <= x < g.len(),
        needed[x],
        node_val(g, vars, feeds, x) is None,
    ensures
        exists|k: int|
            0 <= k < targets.len() && node_val(g, vars, feeds, #[trigger] targets[k] as int)
                is None,
    decreases g.len() - x,
{
    if is_target(targets, x) {
        let k = choose|k: int| 0 <= k < targets.len() && targets[k] as int == x;
        assert(node_val(g, vars, feeds, targets[k] as int) is None);
    } else {
        let y = choose|y: int|
            x < y < needed.len() && needed[y] && !is_leaf(g[y].op) && g[y].inputs.contains(
                x as usize,
            );
        // y consumes x, so y's inputs are not all ready and y fails too
        let prev = vals_upto(g, vars, feeds, y as nat);
        lemma_vals_upto_len(g, vars, feeds, y as nat);
        assert(g[y].inputs.contains(x as usize));
        let j = choose|j: int| 0 <= j < g[y].inputs.len() && g[y].inputs[j] == x as usize;
        assert(g[y].inputs[j] == x as usize);
        assert(g[y].inputs[j] as int == x);
        lemma_node_val_agrees(g, vars, feeds, y as nat, x);
        assert(prev[x] is None);
        assert(prev[g[y].inputs[j] as int] is None);
        assert(!inputs_ready(prev, g[y].inputs));
        assert(node_val(g, vars, feeds, y) == step(g, vars, feeds, prev, y));
        assert(node_val(g, vars, feeds, y) is None);
        lemma_failure_reaches_target(g, vars, feeds, targets, needed, y);
    }
}

/// Evaluates the requested target nodes against a context: walks the arena
/// in topological order computing exactly the nodes some target needs,
/// reuses fed and persisted values, and resolves delegate markers by
/// reusing the named input's resolved value.  Succeeds if and only if every
/// target evaluates; an unfed placeholder or a failing op makes the whole
/// evaluation fail.
#[verifier::loop_isolation(false)]
#[verifier::rlimit(50)]
pub fn eval(g: &Graph, ctx: &Context, targets: &Vec<usize>) -> (r: Result<Vec<NdArray>, EvalError>)
    requires
        g.wf(),
        ctx.wf(),
        forall|k: int| 0 <= k < targets@.len() ==> (#[trigger] targets@[k] as int) < g@.len(),
    ensures
        r matches Ok(vs) ==> vs@.len() == targets@.len() && forall|k: int|
            0 <= k < targets@.len() ==> node_val(
                g@,
                ctx.vars_view(),
                ctx.feeds_view(),
                #[trigger] targets@[k] as int,
            ) == Some(vs@[k]@) && vs@[k].wf(),
        r is Err ==> exists|k: int|
            0 <= k < targets@.len() && node_val(
                g@,
                ctx.vars_view(),
                ctx.feeds_view(),
                #[trigger] targets@[k] as int,
            ) is None,
{
    let ghost gg = g@;
    let ghost gvars = ctx.vars_view();
    let ghost gfeeds = ctx.feeds_view();
    let n = g.len();
    // mark the nodes some target needs, walking top-down so every marked
    // internal node marks its inputs in turn
    let mut needed: Vec<bool> = Vec::new();
    let mut z: usize = 0;
    while z < n
        invariant
            0 <= z <= n,
            needed@.len() == z,
            forall|q: int| 0 <= q < z ==> !(#[trigger] needed@[q]),
        decreases n - z,
    {
        needed.push(false);
        z = z + 1;
    }
    let nt = targets.len();
    let mut k: usize = 0;
    while k < nt
        invariant
            0 <= k <= nt,
            needed@.len() == n,
            marks_ok(gg, targets@, needed@),
            forall|q: int| 0 <= q < k ==> needed@[targets@[q] as int],
        decreases nt - k,
    {
        let t = targets[k];
        let ghost oldneeded = needed@;
        needed[t] = true;
        proof {
            assert forall|x: int| 0 <= x < needed@.len() && #[trigger] needed@[x] implies is_target(
                targets@,
                x,
            ) || (exists|y: int|
                x < y < needed@.len() && needed@[y] && !is_leaf(gg[y].op) && gg[y].inputs.contains(
                    x as usize,
                )) by {
                if x == t as int {
                    assert(is_target(targets@, x));
                } else {
                    assert(oldneeded[x]);
                    if !is_target(targets@, x) {
                        let y = choose|y: int|
                            x < y < oldneeded.len() && oldneeded[y] && !is_leaf(gg[y].op)
                                && gg[y].inputs.contains(x as usize);
                        assert(needed@[y]);
                    }
                }
            };
            assert(marks_ok(gg, targets@, needed@));
        }
        k = k + 1;
    }
    let mut idx: usize = n;
    while idx > 0
        invariant
            0 <= idx <= n,
            needed@.len() == n,
            marks_ok(gg, targets@, needed@),
            forall|q: int| 0 <= q < k ==> needed@[targets@[q] as int],
            forall|y: int, j: int|
                idx <= y < n && #[trigger] needed@[y] && !is_leaf(gg[y].op) && 0 <= j
                    < gg[y].inputs.len() ==> needed@[#[trigger] gg[y].inputs[j] as int],
        decreases idx,
    {
        idx = idx - 1;
        let node_is_leaf = match g.nodes[idx].op {
            OpKind::Placeholder => true,
            OpKind::Variable => true,
            OpKind::Constant => true,
            _ => false,
        };
        proof {
            assert(gg[idx as int] == g.nodes@[idx as int]@);
        }
        if needed[idx] && !node_is_leaf {
            let m = g.nodes[idx].inputs.len();
            let mut j: usize = 0;
            while j < m
                invariant
                    0 <= j <= m,
                    idx < n,
                    m == gg[idx as int].inputs.len(),
                    needed@.len() == n,
                    needed@[idx as int],
                    !is_leaf(gg[idx as int].op),
                    marks_ok(gg, targets@, needed@),
                    forall|q: int| 0 <= q < k ==> needed@[targets@[q] as int],
                    forall|q: int|
                        0 <= q < j ==> needed@[#[trigger] gg[idx as int].inputs[q] as int],
                    forall|y: int, j2: int|
                        idx < y < n && #[trigger] needed@[y] && !is_leaf(gg[y].op) && 0 <= j2
                            < gg[y].inputs.len() ==> needed@[#[trigger] gg[y].inputs[j2] as int],
                decreases m - j,
            {
                let inp = g.nodes[idx].inputs[j];
                let ghost oldneeded = needed@;
                needed[inp] = true;
                proof {
                    assert(gg[idx as int].inputs[j as int] == inp);
                    assert(gg[idx as int].inputs.contains(inp));
                    assert((inp as int) < idx as int);
                    assert forall|x: int|
                        0 <= x < needed@.len() && #[trigger] needed@[x] implies is_target(
                        targets@,
                        x,
                    ) || (exists|y: int|
                        x < y < needed@.len() && needed@[y] && !is_leaf(gg[y].op)
                            && gg[y].inputs.contains(x as usize)) by {
                        if x == inp as int {
                            assert(needed@[idx as int] && !is_leaf(gg[idx as int].op)
                                && gg[idx as int].inputs.contains(x as usize));
                        } else {
                            assert(oldneeded[x]);
                            if !is_target(targets@, x) {
                                let y = choose|y: int|
                                    x < y < oldneeded.len() && oldneeded[y] && !is_leaf(gg[y].op)
                                        && gg[y].inputs.contains(x as usize);
                                assert(needed@[y]);
                            }
                        }
                    };
                    assert(marks_ok(gg, targets@, needed@));
                }
                j = j + 1;
            }
        }
    }
    // compute in arena order: each needed node's value is the interpreter's
    let mut vals: Vec<Option<NdArray>> = Vec::new();
    let mut z2: usize = 0;
    while z2 < n
        invariant
            0 <= z2 <= n,
            vals@.len() == z2,
            forall|q: int| 0 <= q < z2 ==> (#[trigger] vals@[q]) is None,
        decreases n - z2,
    {
        vals.push(None);
        z2 = z2 + 1;
    }
    let mut i: usize = 0;
    while i < n
        invariant
            0 <= i <= n,
            vals@.len() == n,
            needed@.len() == n,
            marks_ok(gg, targets@, needed@),
            forall|q: int| 0 <= q < nt ==> needed@[targets@[q] as int],
            forall|y: int, j: int|
                0 <= y < n && #[trigger] needed@[y] && !is_leaf(gg[y].op) && 0 <= j
                    < gg[y].inputs.len() ==> needed@[#[trigger] gg[y].inputs[j] as int],
            forall|q: int| 0 <= q < n && (#[trigger] vals@[q]) is Some ==> q < i && needed@[q],
            forall|q: int|
                0 <= q < i && needed@[q] ==> (#[trigger] vals@[q]) is Some,
            forall|q: int|
                0 <= q < n ==> ((#[trigger] vals@[q]) matches Some(a) ==> node_val(
                    gg,
                    gvars,
                    gfeeds,
                    q,
                ) == Some(a@) && a.wf()),
        decreases n - i,
    {
        proof {
            assert(gg[i as int] == g.nodes@[i as int]@);
        }
        if needed[i] {
            let node_kind = match g.nodes[i].op {
                OpKind::Placeholder => 0usize,
                OpKind::Variable => 1usize,
                OpKind::Constant => 1usize,
                _ => 2usize,
            };
            if node_kind == 0 {
                match ctx.get_feed(i) {
                    Some(a) => {
                        let c = NdArray { shape: a.shape.clone(), data: a.data.clone() };
                        proof {
                            crate::context::lemma_lookup_wf(gfeeds, i as int);
                            lemma_vals_upto_len(gg, gvars, gfeeds, i as nat);
                            assert(node_val(gg, gvars, gfeeds, i as int) == lookup(
                                gfeeds,
                                i as int,
                            ));
                            assert(c@ == a@);
                        }
                        vals[i] = Some(c);
                    },
                    None => {
                        proof {
                            lemma_vals_upto_len(gg, gvars, gfeeds, i as nat);
                            assert(node_val(gg, gvars, gfeeds, i as int) == lookup(
                                gfeeds,
                                i as int,
                            ));
                            assert(node_val(gg, gvars, gfeeds, i as int) is None);
                            lemma_failure_reaches_target(
                                gg,
                                gvars,
                                gfeeds,
                                targets@,
                                needed@,
                                i as int,
                            );
                        }
                        return Err(EvalError::UnfedPlaceholder);
                    },
                }
            } else if node_kind == 1 {
                match ctx.get_var(i) {
                    Some(a) => {
                        let c = NdArray { shape: a.shape.clone(), data: a.data.clone() };
                        proof {
                            crate::context::lemma_lookup_wf(gvars, i as int);
                            lemma_vals_upto_len(gg, gvars, gfeeds, i as nat);
                            assert(node_val(gg, gvars, gfeeds, i as int) == lookup(
                                gvars,
                                i as int,
                            ));
                            assert(c@ == a@);
                        }
                        vals[i] = Some(c);
                    },
                    None => {
                        proof {
                            lemma_vals_upto_len(gg, gvars, gfeeds, i as nat);
                            assert(node_val(gg, gvars, gfeeds, i as int) == lookup(
                                gvars,
                                i as int,
                            ));
                            assert(node_val(gg, gvars, gfeeds, i as int) is None);
                            lemma_failure_reaches_target(
                                gg,
                                gvars,
                                gfeeds,
                                targets@,
                                needed@,
                                i as int,
                            );
                        }
                        return Err(EvalError::UnboundVariable);
                    },
                }
            } else {
                let ghost prev = vals_upto(gg, gvars, gfeeds, i as nat);
                proof {
                    lemma_vals_upto_len(gg, gvars, gfeeds, i as nat);
                    assert forall|j: int|
                        0 <= j < gg[i as int].inputs.len() implies (
                    #[trigger] gg[i as int].inputs[j] as int) < prev.len() && prev[gg[
                        i as int].inputs[j] as int] is Some && vals@[gg[i as int].inputs[j] as int]
                        is Some by {
                        assert(needed@[gg[i as int].inputs[j] as int]);
                        let q = gg[i as int].inputs[j] as int;
                        assert(vals@[q] is Some);
                        lemma_node_val_agrees(gg, gvars, gfeeds, i as nat, q);
                    };
                    assert(inputs_ready(prev, gg[i as int].inputs));
                }
                let m = g.nodes[i].inputs.len();
                let mut xs: Vec<NdArray> = Vec::new();
                let mut j: usize = 0;
                while j < m
                    invariant
                        0 <= j <= m,
                        i < n,
                        m == gg[i as int].inputs.len(),
                        xs@.len() == j,
                        forall|q: int|
                            0 <= q < j ==> (#[trigger] xs@[q])@ == gather(
                                prev,
                                gg[i as int].inputs,
                            )[q] && xs@[q].wf(),
                    decreases m - j,
                {
                    let inp = g.nodes[i].inputs[j];
                    proof {
                        assert(vals@[inp as int] is Some);
                        lemma_node_val_agrees(gg, gvars, gfeeds, i as nat, inp as int);
                    }
                    let a = match &vals[inp] {
                        Some(a) => a,
                        None => {
                            proof {
                                assert(false);
                            }
                            return Err(EvalError::UnfedPlaceholder);
                        },
                    };
                    let c = NdArray { shape: a.shape.clone(), data: a.data.clone() };
                    xs.push(c);
                    j = j + 1;
                }
                proof {
                    assert(xs@.map_values(|x: NdArray| x@) =~= gather(prev, gg[i as int].inputs));
                }
                match compute_node(&g.nodes[i].op, &xs) {
                    Ok(ComputeVal::Value(v)) => {
                        proof {
                            assert(node_val(gg, gvars, gfeeds, i as int) == step(
                                gg,
                                gvars,
                                gfeeds,
                                prev,
                                i as int,
                            ));
                            assert(node_val(gg, gvars, gfeeds, i as int) == Some(v@));
                        }
                        vals[i] = Some(v);
                    },
                    Ok(ComputeVal::Delegate(d)) => {
                        proof {
                            assert(op_compute_spec(gg[i as int].op, gather(prev, gg[i as int].inputs))
                                == Some(CompSpec::Delg(d as int)));
                            assert(node_val(gg, gvars, gfeeds, i as int) == Some(
                                gather(prev, gg[i as int].inputs)[d as int],
                            ));
                        }
                        let a = match &vals[g.nodes[i].inputs[d]] {
                            Some(a) => a,
                            None => {
                                proof {
                                    assert(vals@[gg[i as int].inputs[d as int] as int] is Some);
                                    assert(false);
                                }
                                return Err(EvalError::UnfedPlaceholder);
                            },
                        };
                        let c = NdArray { shape: a.shape.clone(), data: a.data.clone() };
                        proof {
                            lemma_node_val_agrees(
                                gg,
                                gvars,
                                gfeeds,
                                i as nat,
                                gg[i as int].inputs[d as int] as int,
                            );
                            assert(c@ == gather(prev, gg[i as int].inputs)[d as int]);
                        }
                        vals[i] = Some(c);
                    },
                    Err(e) => {
                        proof {
                            assert(op_compute_spec(gg[i as int].op, gather(prev, gg[i as int].inputs))
                                is None);
                            assert(node_val(gg, gvars, gfeeds, i as int) == step(
                                gg,
                                gvars,
                                gfeeds,
                                prev,
                                i as int,
                            ));
                            assert(node_val(gg, gvars, gfeeds, i as int) is None);
                            lemma_failure_reaches_target(
                                gg,
                                gvars,
                                gfeeds,
                                targets@,
                                needed@,
                                i as int,
                            );
                        }
                        return Err(e);
                    },
                }
            }
        }
        i = i + 1;
    }
    let mut out: Vec<NdArray> = Vec::new();
    let mut k2: usize = 0;
    while k2 < nt
        invariant
            0 <= k2 <= nt,
            out@.len() == k2,
            forall|q: int|
                0 <= q < k2 ==> node_val(gg, gvars, gfeeds, #[trigger] targets@[q] as int) == Some(
                    out@[q]@,
                ) && out@[q].wf(),
        decreases nt - k2,
    {
        let t = targets[k2];
        proof {
            assert(needed@[t as int]);
            assert(vals@[t as int] is Some);
        }
        let a = match &vals[t] {
            Some(a) => a,
            None => {
                proof {
                    assert(false);
                }
                return Err(EvalError::UnfedPlaceholder);
            },
        };
        let c = NdArray { shape: a.shape.clone(), data: a.data.clone() };
        out.push(c);
        k2 = k2 + 1;
    }
    Ok(out)
}

} // verus!
