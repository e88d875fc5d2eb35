//! The ways in which an operation of this library can fail.
use vstd::prelude::*;
use crate::unit::UnitId;

verus! {

/// A failure reported by a converter.
#[derive(Debug, Clone, PartialEq, Structural)]
pub enum Error {
    /// The reference unit was offered as a conversion target of itself.
    AlreadyAdded,
    /// No rate is registered for one of the two units named.
    NotAdded(UnitId, UnitId),
    /// A magnification of zero was offered, or a stored denominator is zero.
    DivideByZero,
    /// The quantity factory declined to build the converted quantity.
    FactoryError,
}

} // verus!
