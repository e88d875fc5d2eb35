//! A quantity: one amount in one unit.
use vstd::prelude::*;
use vstd::std_specs::cmp::PartialEqSpecImpl;
use crate::quantity::quantity_amount::QuantityAmount;
use crate::quantity::quantity_id::QuantityId;
use crate::unit::UnitId;

verus! {

/// An amount in a unit, known under an identity.
///
/// A quantity holds exactly one amount in exactly one unit.  Two quantities
/// are the same quantity when their identities agree, whatever they hold.
#[derive(Debug, Clone)]
pub struct Quantity {
    pub id: QuantityId,
    pub amount: QuantityAmount,
    pub unit_id: UnitId,
}

impl Quantity {
    /// The quantity with the given identity, amount and unit.
    pub fn new(id: QuantityId, amount: QuantityAmount, unit_id: UnitId) -> (quantity: Self)
        ensures
            quantity.id == id,
            quantity.amount == amount,
            quantity.unit_id == unit_id,
    {
        Self { id, amount, unit_id }
    }
}

impl PartialEq for Quantity {
    /// Whether the two are the same quantity.
    fn eq(&self, other: &Quantity) -> (same: bool) {
        self.id.value == other.id.value
    }
}

impl PartialEqSpecImpl for Quantity {
    open spec fn obeys_eq_spec() -> bool {
        true
    }

    open spec fn eq_spec(&self, other: &Quantity) -> bool {
        self.id == other.id
    }
}

} // verus!
