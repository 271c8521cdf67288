use vstd::prelude::*;

use crate::error::EvalError;
use crate::op::OpKind;

verus! {

/// One vertex of the computation DAG: the op it applies, the arena indices
/// of its ordered inputs, an optional statically-declared shape, and
/// whether gradients may flow through it.  Nodes are immutable once built.
pub struct Node {
    pub op: OpKind,
    pub inputs: Vec<usize>,
    pub shape: Option<Vec<usize>>,
    pub differentiable: bool,
}

/// Model of a node.
pub struct NodeSpec {
    pub op: OpKind,
    pub inputs: Seq<usize>,
    pub shape: Option<Seq<usize>>,
    pub differentiable: bool,
}

impl View for Node {
    type V = NodeSpec;

    open spec fn view(&self) -> NodeSpec {
        NodeSpec {
            op: self.op,
            inputs: self.inputs@,
            shape: match self.shape {
                Some(ref v) => Some(v@),
                None => None,
            },
            differentiable: self.differentiable,
        }
    }
}

/// A graph is acyclic by construction: every input of a node has a smaller
/// arena index.
pub open spec fn graph_wf(g: Seq<NodeSpec>) -> bool {
    forall|i: int, j: int|
        0 <= i < g.len() && 0 <= j < g[i].inputs.len() ==> (#[trigger] g[i].inputs[j] as int) < i
}

/// The arena holding the computation DAG.  A tensor handle is an index into
/// it; two structurally identical nodes are still distinct entities.
pub struct Graph {
    pub nodes: Vec<Node>,
}

impl View for Graph {
    type V = Seq<NodeSpec>;

    open spec fn view(&self) -> Seq<NodeSpec> {
        self.nodes@.map_values(|n: Node| n@)
    }
}

impl Graph {
    pub open spec fn wf(&self) -> bool {
        graph_wf(self@)
    }

    /// An empty graph.
    pub fn new() -> (g: Graph)
        ensures
            g@ =~= Seq::<NodeSpec>::empty(),
            g.wf(),
    {
        let g = Graph { nodes: Vec::new() };
        proof {
            assert(g@ =~= Seq::<NodeSpec>::empty());
        }
        g
    }

    /// The number of nodes built so far.
    pub fn len(&self) -> (n: usize)
        ensures
            n == self@.len(),
    {
        self.nodes.len()
    }

    /// Appends a node whose inputs are already in the arena, returning its
    /// index; the only way a node comes into being, so cycles cannot arise.
    pub fn add_node(
        &mut self,
        op: OpKind,
        inputs: Vec<usize>,
        shape: Option<Vec<usize>>,
        differentiable: bool,
    ) -> (id: usize)
        requires
            old(self).wf(),
            forall|j: int|
                0 <= j < inputs@.len() ==> (#[trigger] inputs@[j] as int) < old(self)@.len(),
        ensures
            id as int == old(self)@.len(),
            final(self)@ == old(self)@.push(
                NodeSpec {
                    op,
                    inputs: inputs@,
                    shape: match shape {
                        Some(v) => Some(v@),
                        None => None,
                    },
                    differentiable,
                },
            ),
            final(self).wf(),
    {
        let id = self.nodes.len();
        let node = Node { op, inputs, shape, differentiable };
        let ghost gnode = node@;
        self.nodes.push(node);
        proof {
            assert(self@ =~= old(self)@.push(gnode));
            assert forall|i: int, j: int|
                0 <= i < self@.len() && 0 <= j < self@[i].inputs.len() implies (
            #[trigger] self@[i].inputs[j] as int) < i by {
                if i < old(self)@.len() {
                    assert(self@[i] == old(self)@[i]);
                } else {
                    assert(self@[i] == gnode);
                }
            };
        }
        id
    }

    /// Builds an internal node applying `op` to the given inputs, rejecting
    /// out-of-range input indices.
    pub fn apply(&mut self, op: OpKind, inputs: Vec<usize>) -> (r: Result<usize, EvalError>)
        requires
            old(self).wf(),
        ensures
            r is Ok <==> (forall|j: int|
                0 <= j < inputs@.len() ==> (#[trigger] inputs@[j] as int) < old(self)@.len()),
            r matches Ok(id) ==> id as int == old(self)@.len() && final(self)@ == old(self)@.push(
                NodeSpec { op, inputs: inputs@, shape: None, differentiable: true },
            ) && final(self).wf(),
            r is Err ==> final(self)@ == old(self)@ && r == Err::<usize, EvalError>(
                EvalError::ShapeMismatch,
            ),
    {
        let n = self.nodes.len();
        let m = inputs.len();
        let mut j: usize = 0;
        while j < m
            invariant
                0 <= j <= m,
                m == inputs@.len(),
                n == self@.len(),
                forall|q: int| 0 <= q < j ==> (#[trigger] inputs@[q] as int) < n,
            decreases m - j,
        {
            if inputs[j] >= n {
                return Err(EvalError::ShapeMismatch);
            }
            j = j + 1;
        }
        Ok(self.add_node(op, inputs, None, true))
    }

    /// Builds a leaf node of the given kind, optionally with a declared
    /// shape.
    pub fn leaf(&mut self, op: OpKind, shape: Option<Vec<usize>>) -> (id: usize)
        requires
            old(self).wf(),
        ensures
            id as int == old(self)@.len(),
            final(self)@ == old(self)@.push(
                NodeSpec {
                    op,
                    inputs: Seq::<usize>::empty(),
                    shape: match shape {
                        Some(v) => Some(v@),
                        None => None,
                    },
                    differentiable: true,
                },
            ),
            final(self).wf(),
    {
        let inputs: Vec<usize> = Vec::new();
        proof {
            assert(inputs@ =~= Seq::<usize>::empty());
        }
        self.add_node(op, inputs, shape, true)
    }

    /// Builds a placeholder leaf whose value must be fed per evaluation,
    /// optionally with a declared shape that fed values must match.
    pub fn placeholder(&mut self, shape: Option<Vec<usize>>) -> (id: usize)
        requires
            old(self).wf(),
        ensures
            id as int == old(self)@.len(),
            final(self)@ == old(self)@.push(
                NodeSpec {
                    op: OpKind::Placeholder,
                    inputs: Seq::<usize>::empty(),
                    shape: match shape {
                        Some(v) => Some(v@),
                        None => None,
                    },
                    differentiable: true,
                },
            ),
            final(self).wf(),
    {
        self.leaf(OpKind::Placeholder, shape)
    }
}

} // verus!
