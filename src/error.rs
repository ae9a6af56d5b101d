//! What can go wrong.
use vstd::prelude::*;

verus! {

#[derive(Debug, Clone, Copy, PartialEq, Eq, Structural)]
pub enum RlweError {
    /// The scheme's parameters do not fit together.
    InvalidParameter,
    /// Polynomial division by the zero polynomial.
    DivideByZero,
}

} // verus!
