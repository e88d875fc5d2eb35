//! The identity of a quantity.
use vstd::prelude::*;

verus! {

/// The number under which a quantity is known.
#[derive(Debug, Clone, PartialEq, Eq, Structural, Hash)]
pub struct QuantityId {
    pub value: i32,
}

impl QuantityId {
    /// The identity with the given number.
    pub fn new(id: i32) -> (quantity_id: Self)
        ensures
            quantity_id.value == id,
    {
        Self { value: id }
    }
}

} // verus!
