//! Conversion rates between units of measure, anchored at one reference unit.
//!
//! A [`Converter`] keeps, for a single reference unit, the magnification that
//! leads from that unit to every registered unit, and derives from two such
//! entries the magnification between any two registered units.  Magnifications
//! and amounts are IEEE 754 binary32 numbers held as their bit patterns; the
//! arithmetic on them is carried out, and proved correctly rounded, in
//! [`binary32`].
pub mod unit;
pub mod error;
pub mod binary32;
pub mod magnification;
pub mod quantity;
pub mod rate;
pub mod converter;
pub mod laws;

pub use converter::{Converter, Rates};
pub use error::Error;
pub use magnification::Magnification;
pub use quantity::{IQuantityFactory, IQuantityRepository, Quantity, QuantityAmount, QuantityId};
pub use rate::{Rate, RateResult};
pub use unit::{Unit, UnitId};

use vstd::prelude::*;

verus! {

/// The sum of two sizes.
pub fn add(left: usize, right: usize) -> (sum: usize)
    requires
        left + right <= usize::MAX,
    ensures
        sum == left + right,
{
    left + right
}

} // verus!
