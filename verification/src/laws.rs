//! What holds of the rates of every converter, whatever was registered.
//!
//! Each law speaks of `Rates`, the view of a converter, and of the
//! functions on it by which the converter's operations are specified.
use vstd::prelude::*;
use crate::binary32::{
    is_nan, lemma_product_by_one, lemma_quotient_by_itself, lemma_quotient_by_one, magnitude,
    quotient, INFINITY, ONE,
};
use crate::quantity::quantity_amount::QuantityAmount;
use crate::converter::Rates;
use crate::error::Error;
use crate::magnification::Magnification;
use crate::unit::UnitId;

verus! {

/// A fresh converter holds exactly one rate, and the magnification from its
/// reference unit to itself is one.
pub proof fn law_new(reference: UnitId)
    ensures
        Rates::new(reference).valid(),
        Rates::new(reference).rates.len() == 1,
        Rates::new(reference).magnification(reference, reference) == Ok::<Magnification, Error>(
            Magnification { value: ONE },
        ),
{
    lemma_quotient_by_one(ONE);
    assert(Rates::new(reference).rates.dom() =~= Set::empty().insert(reference));
}

/// Registering keeps the rates valid.
pub proof fn law_add_or_update_valid(rates: Rates, to: UnitId, magnification: Magnification)
    requires
        rates.valid(),
    ensures
        rates.add_or_update(to, magnification).0.valid(),
{
}

/// Removing keeps the rates valid.
pub proof fn law_remove_valid(rates: Rates, to: UnitId)
    requires
        rates.valid(),
    ensures
        rates.remove(to).0.valid(),
{
}

/// The reference unit is never accepted as a target: with a magnification
/// that is not zero the request fails with `AlreadyAdded`, with a zero one
/// with `DivideByZero`, and the rates stay as they were.
pub proof fn law_reference_refused(rates: Rates, magnification: Magnification)
    ensures
        rates.add_or_update(rates.reference, magnification).0 == rates,
        !magnification.zero() ==> rates.add_or_update(rates.reference, magnification).1 == Err::<
            (),
            Error,
        >(Error::AlreadyAdded),
        magnification.zero() ==> rates.add_or_update(rates.reference, magnification).1 == Err::<
            (),
            Error,
        >(Error::DivideByZero),
{
}

/// A magnification of zero is refused with `DivideByZero`, whatever the
/// target, and the rates stay as they were.
pub proof fn law_zero_refused(rates: Rates, to: UnitId, magnification: Magnification)
    requires
        magnification.zero(),
    ensures
        rates.add_or_update(to, magnification) == (rates, Err::<(), Error>(Error::DivideByZero)),
{
}

/// Every other request to register is granted.
pub proof fn law_add_or_update_granted(rates: Rates, to: UnitId, magnification: Magnification)
    requires
        to != rates.reference,
        !magnification.zero(),
    ensures
        rates.add_or_update(to, magnification).1 == Ok::<(), Error>(()),
        rates.add_or_update(to, magnification).0.already_added(to),
{
}

/// After a magnification that is a number was registered for a unit, while
/// the reference unit holds its own rate, the magnification from the
/// reference unit to that unit is the one registered, and the magnification
/// back is one divided by it.
pub proof fn law_registered_rate(rates: Rates, to: UnitId, magnification: Magnification)
    requires
        rates.valid(),
        rates.already_added(rates.reference),
        to != rates.reference,
        !magnification.zero(),
    ensures
        !is_nan(magnification.value) ==> rates.add_or_update(to, magnification).0.magnification(
            rates.reference,
            to,
        ) == Ok::<Magnification, Error>(magnification),
        rates.add_or_update(to, magnification).0.magnification(to, rates.reference) == Ok::<
            Magnification,
            Error,
        >(Magnification { value: quotient(ONE, magnification.value) }),
{
    if !is_nan(magnification.value) {
        lemma_quotient_by_one(magnification.value);
    }
}

/// Registering twice for one unit leaves what registering the second
/// magnification alone would leave: one rate for the unit, the second.
pub proof fn law_update_replaces(rates: Rates, to: UnitId, first: Magnification, second: Magnification)
    requires
        to != rates.reference,
        !first.zero(),
        !second.zero(),
    ensures
        rates.add_or_update(to, first).0.add_or_update(to, second).0 == rates.add_or_update(
            to,
            second,
        ).0,
        rates.add_or_update(to, first).0.add_or_update(to, second).0.rates[to] == second,
        rates.valid() ==> rates.add_or_update(to, first).0.add_or_update(to, second).0.rates.len()
            == rates.add_or_update(to, first).0.rates.len(),
        rates.valid() && rates.already_added(rates.reference) && !is_nan(second.value)
            ==> rates.add_or_update(to, first).0.add_or_update(to, second).0.magnification(
            rates.reference,
            to,
        ) == Ok::<Magnification, Error>(second),
{
    let once = rates.add_or_update(to, first).0;
    let twice = once.add_or_update(to, second).0;
    assert(twice.rates =~= rates.add_or_update(to, second).0.rates);
    assert(twice.rates.dom() =~= once.rates.dom());
    if !is_nan(second.value) {
        lemma_quotient_by_one(second.value);
    }
}

/// With rates registered for two units, the magnification from the first
/// unit to the second is the second rate divided by the first, and the
/// magnification back is the first rate divided by the second.
pub proof fn law_composition(
    rates: Rates,
    to1: UnitId,
    magnification1: Magnification,
    to2: UnitId,
    magnification2: Magnification,
)
    requires
        to1 != rates.reference,
        to2 != rates.reference,
        to1 != to2,
        !magnification1.zero(),
        !magnification2.zero(),
    ensures
        rates.add_or_update(to1, magnification1).0.add_or_update(to2, magnification2).0.magnification(
            to1,
            to2,
        ) == Ok::<Magnification, Error>(
            Magnification { value: quotient(magnification2.value, magnification1.value) },
        ),
        rates.add_or_update(to1, magnification1).0.add_or_update(to2, magnification2).0.magnification(
            to2,
            to1,
        ) == Ok::<Magnification, Error>(
            Magnification { value: quotient(magnification1.value, magnification2.value) },
        ),
{
}

/// The magnification from a registered unit to itself is one, where the
/// unit's rate is finite.
pub proof fn law_same_unit(rates: Rates, unit: UnitId)
    requires
        rates.valid(),
        rates.already_added(unit),
        magnitude(rates.rates[unit].value) < INFINITY,
    ensures
        rates.magnification(unit, unit) == Ok::<Magnification, Error>(
            Magnification { value: ONE },
        ),
{
    lemma_quotient_by_itself(rates.rates[unit].value);
}

/// An amount that is a number, converted into its own unit, stays what it
/// is, where the unit's rate is finite.
pub proof fn law_convert_same_unit(rates: Rates, amount: QuantityAmount, unit: UnitId)
    requires
        rates.valid(),
        rates.already_added(unit),
        magnitude(rates.rates[unit].value) < INFINITY,
        !is_nan(amount.value),
    ensures
        rates.converted_amount(amount, unit, unit) == Ok::<QuantityAmount, Error>(amount),
{
    lemma_quotient_by_itself(rates.rates[unit].value);
    lemma_product_by_one(amount.value);
}

/// Removing a registered unit succeeds and leaves it unregistered, every
/// other rate staying as it was; removing an unregistered unit fails with
/// `NotAdded` and changes nothing.
pub proof fn law_remove(rates: Rates, to: UnitId)
    ensures
        rates.already_added(to) ==> rates.remove(to).1 == Ok::<(), Error>(()),
        !rates.remove(to).0.already_added(to),
        !rates.already_added(to) ==> rates.remove(to) == (
            rates,
            Err::<(), Error>(Error::NotAdded(rates.reference, to)),
        ),
        forall|other: UnitId|
            other != to ==> (#[trigger] rates.remove(to).0.already_added(other)
                == rates.already_added(other) && (rates.already_added(other) ==> rates.remove(
                to,
            ).0.rates[other] == rates.rates[other])),
{
}

/// The magnification between two units fails with `NotAdded`, naming the
/// two, exactly when one of them is not registered.
pub proof fn law_unregistered(rates: Rates, from: UnitId, to: UnitId)
    ensures
        (!rates.already_added(from) || !rates.already_added(to)) <==> rates.magnification(from, to)
            == Err::<Magnification, Error>(Error::NotAdded(from, to)),
{
}

/// Between two registered units of valid rates there is a magnification: no
/// stored rate is zero, so no derivation divides by zero.
pub proof fn law_registered_derivable(rates: Rates, from: UnitId, to: UnitId)
    requires
        rates.valid(),
        rates.already_added(from),
        rates.already_added(to),
    ensures
        rates.magnification(from, to) == Ok::<Magnification, Error>(
            Magnification { value: quotient(rates.rates[to].value, rates.rates[from].value) },
        ),
{
}

} // verus!
