use vstd::prelude::*;

verus! {

/// The logical types a column can be declared with.
#[derive(Debug, Clone, Copy, PartialEq, Eq, Structural)]
pub enum DataType {
    /// A 64-bit signed integer.
    Int,
    /// A decimal number (the engine's fixed-point stand-in for a float column).
    Float,
    /// A variable-length character string.
    Text,
    /// A boolean value.
    Bool,
}

} // verus!
