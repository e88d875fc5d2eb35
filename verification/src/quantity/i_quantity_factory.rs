//! The capability that builds quantities.
use vstd::prelude::*;
use crate::quantity::quantity::Quantity;
use crate::quantity::quantity_amount::QuantityAmount;
use crate::unit::UnitId;

verus! {

/// Something that can build a quantity from an amount and a unit, or decline.
pub trait IQuantityFactory {
    /// Whether `created` is an answer that this factory may give when asked
    /// for `amount` in `unit_id`.  Each factory may say this for itself; one
    /// that does not may give any answer.
    open spec fn creates(
        &self,
        amount: QuantityAmount,
        unit_id: UnitId,
        created: Option<Quantity>,
    ) -> bool {
        true
    }

    /// Builds a quantity of `amount` in `unit_id`, or declines with `None`.
    fn create(&self, amount: QuantityAmount, unit_id: UnitId) -> (created: Option<Quantity>)
        ensures
            self.creates(amount, unit_id, created),
    ;
}

} // verus!
