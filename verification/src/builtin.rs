//! The primitive value types of the language.

use vstd::prelude::*;

verus! {

/// The type of a primitive value.
#[derive(Clone, Copy, Debug, PartialEq, Eq, Structural)]
pub enum ValueType {
    Int,
    Float,
    Bool,
}

} // verus!
