//! The capability that stores quantities.
use vstd::prelude::*;
use crate::quantity::quantity::Quantity;
use crate::quantity::quantity_id::QuantityId;

verus! {

/// A store of quantities, looked up by identity.  The library itself never
/// consults one; the trait is here for those who keep quantities.
pub trait IQuantityRepository: core::fmt::Debug {
    /// Stores a new quantity and gives it back, or declines.
    fn add(&self, new_quantity: Quantity) -> Option<Quantity>;

    /// The stored quantity with the given identity, if there is one.
    fn find(&self, id: QuantityId) -> Option<Box<Quantity>>;

    /// Every stored quantity.
    fn all(&self) -> Vec<Quantity>;

    /// Replaces the stored quantity that has the identity of
    /// `update_quantity`, and gives the stored one back, or declines.
    fn update(&self, update_quantity: &Quantity) -> Option<Box<Quantity>>;

    /// Removes the stored quantity with the given identity, or declines.
    fn remove(&self, id: QuantityId) -> Option<()>;
}

} // verus!
