//! A stored conversion rate: a directed edge from one unit to another.
use vstd::prelude::*;
use vstd::std_specs::cmp::{PartialEqSpecImpl, PartialOrdSpecImpl};
use core::cmp::Ordering;
use crate::binary32::quotient;
use crate::error::Error;
use crate::magnification::Magnification;
use crate::unit::UnitId;

verus! {

/// What an operation on rates returns.
pub type RateResult<T> = Result<T, Error>;

/// The magnification that leads from one unit to another.
///
/// A rate is known by its two units alone: two rates between the same units
/// are equal whatever their magnifications, and rates are ordered by their
/// source unit first and their target unit second.
#[derive(Debug, Clone)]
pub struct Rate {
    from: UnitId,
    to: UnitId,
    magnification: Magnification,
}

impl Rate {
    /// The unit that this rate leads from.
    pub closed spec fn source(&self) -> UnitId {
        self.from
    }

    /// The unit that this rate leads to.
    pub closed spec fn target(&self) -> UnitId {
        self.to
    }

    /// How many target units make one source unit.
    pub closed spec fn factor(&self) -> Magnification {
        self.magnification
    }

    /// The rate from `from` to `to` with the given magnification.
    pub fn new(from: UnitId, to: UnitId, magnification: Magnification) -> (rate: Self)
        ensures
            rate.source() == from,
            rate.target() == to,
            rate.factor() == magnification,
    {
        Self { from, to, magnification }
    }

    /// The unit that this rate leads from.
    pub fn from(&self) -> (from: UnitId)
        ensures
            from == self.source(),
    {
        self.from
    }

    /// The unit that this rate leads to.
    pub fn to(&self) -> (to: UnitId)
        ensures
            to == self.target(),
    {
        self.to
    }

    /// How many target units make one source unit.
    pub fn magnification(&self) -> (magnification: Magnification)
        ensures
            magnification == self.factor(),
    {
        self.magnification
    }

    /// Whether the magnification of this rate is zero.
    pub fn is_zero(&self) -> (zero: bool)
        ensures
            zero == self.factor().zero(),
    {
        self.magnification.is_zero()
    }

    /// The magnification of this rate divided by that of `rhs`, which must
    /// not be zero.  With both rates leading from one unit, this is the
    /// magnification from the target of `rhs` to the target of this rate.
    pub fn devide_magnification(&self, rhs: &Self) -> (ratio: RateResult<Magnification>)
        requires
            !rhs.factor().zero(),
        ensures
            ratio == Ok::<Magnification, Error>(
                Magnification { value: quotient(self.factor().value, rhs.factor().value) },
            ),
    {
        Ok(self.magnification / rhs.magnification)
    }

    /// How this rate stands to `other`; the magnifications play no part.
    pub fn cmp(&self, other: &Self) -> (order: Ordering)
        ensures
            order == self.order(other),
    {
        let from: i32 = self.from.value();
        let other_from: i32 = other.from.value();
        let to: i32 = self.to.value();
        let other_to: i32 = other.to.value();
        if from < other_from {
            Ordering::Less
        } else if from > other_from {
            Ordering::Greater
        } else if to < other_to {
            Ordering::Less
        } else if to > other_to {
            Ordering::Greater
        } else {
            Ordering::Equal
        }
    }

    /// How two rates stand to each other: by their source units, and between
    /// equal source units by their target units.
    pub open spec fn order(&self, other: &Self) -> Ordering {
        if self.source()@ < other.source()@ {
            Ordering::Less
        } else if self.source()@ > other.source()@ {
            Ordering::Greater
        } else if self.target()@ < other.target()@ {
            Ordering::Less
        } else if self.target()@ > other.target()@ {
            Ordering::Greater
        } else {
            Ordering::Equal
        }
    }
}

impl PartialEq for Rate {
    /// Whether the two rates lead from the same unit to the same unit.
    fn eq(&self, other: &Self) -> (same: bool) {
        self.from.value() == other.from.value() && self.to.value() == other.to.value()
    }
}

impl PartialEqSpecImpl for Rate {
    open spec fn obeys_eq_spec() -> bool {
        true
    }

    open spec fn eq_spec(&self, other: &Self) -> bool {
        self.source()@ == other.source()@ && self.target()@ == other.target()@
    }
}

impl Eq for Rate {

}

impl PartialOrd for Rate {
    /// How the two rates stand to each other; the magnifications play no part.
    fn partial_cmp(&self, other: &Self) -> (order: Option<Ordering>) {
        Some(self.cmp(other))
    }
}

impl PartialOrdSpecImpl for Rate {
    open spec fn obeys_partial_cmp_spec() -> bool {
        true
    }

    open spec fn partial_cmp_spec(&self, other: &Self) -> Option<Ordering> {
        Some(self.order(other))
    }
}

} // verus!
