use vstd::prelude::*;

verus! {

/// Why an operation was refused.
#[derive(Debug, Clone, Copy, PartialEq, Eq, Structural)]
pub enum NetworkError {
    /// Operand shapes do not fit each other: in an elementwise operation, a
    /// matrix product, or the chain of layers.
    DimensionMismatch,
    /// Training inputs and expected outputs are not paired one to one.
    LengthMismatch,
    /// A network cannot be made of the given weight and bias sequences:
    /// they differ in length, or hold no layer.
    InvalidConstruction,
}

} // verus!
