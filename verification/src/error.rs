use vstd::prelude::*;

verus! {

/// Why feeding, graph construction or evaluation failed.
///
/// Every failure is a usage or data error surfaced immediately; nothing in the
/// library retries, and gradient absence is *not* an error (a backward rule
/// simply yields no gradient node for an input).
#[derive(Clone, Copy, Debug, PartialEq, Eq, Structural)]
pub enum EvalError {
    /// A value was fed to a node that is not a placeholder.
    NonPlaceholderFeed,
    /// A placeholder was evaluated without a fed value.
    UnfedPlaceholder,
    /// A variable or constant node has no stored value in the context.
    UnboundVariable,
    /// Operand shapes cannot be reconciled, or a fed value does not match a
    /// placeholder's declared shape, or an array exceeds the size limits.
    ShapeMismatch,
    /// An element of a result does not fit in `i64`, or an operand value is
    /// too large for a convolution kernel.
    ValueOutOfRange,
    /// Elementwise division by zero.
    DivisionByZero,
}

} // verus!
