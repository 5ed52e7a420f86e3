use vstd::prelude::*;

verus! {

/// Why an operation of the engine failed.
#[derive(Clone, Copy, Debug, PartialEq, Eq, Structural)]
pub enum Error {
    /// The operands' shapes do not fit the requested operation.
    ShapeMismatch,
    /// A backward pass was started from a tensor that is not a scalar.
    NonScalarBackward,
    /// The optimizer holds no state for the parameter that was asked about.
    UnregisteredParameter,
}

} // verus!
