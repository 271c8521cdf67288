//! A small library for building lazy computation graphs over dense
//! integer-valued multi-dimensional arrays, evaluating them on demand, and
//! constructing reverse-mode gradient graphs that are themselves
//! further-differentiable.
//!
//! Graph nodes are immutable once built and live in an arena ([`tensor::Graph`]);
//! a node's inputs always have smaller arena indices, so the graph is acyclic
//! by construction.  Values are dense row-major arrays of `i64`
//! ([`array::NdArray`]).  Evaluation ([`runtime::eval`]) walks the arena in
//! topological order, computing only the nodes a requested output needs, and
//! resolves zero-copy delegate markers.  Gradient construction
//! ([`gradient::grad`]) walks the same arena in reverse, summing the
//! contributions a node receives from all of its consumers before invoking
//! that node's own backward rule, so shared sub-graphs differentiate
//! correctly.  NumPy-style broadcasting in the forward binary operations is
//! undone in the backward pass by a matched pair of reduction/expansion ops
//! ([`binary_ops::PreprocessBinOpGrad`] and
//! [`binary_ops::PreprocessBinOpGradGrad`]).

pub mod array;
pub mod binary_ops;
pub mod context;
pub mod conv2d_transpose;
pub mod error;
pub mod gradient;
pub mod op;
pub mod runtime;
pub mod tensor;
