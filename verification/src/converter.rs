//! The converter: the rates that lead from one reference unit, and the
//! magnifications derived from them.
use std::collections::BTreeMap;
use vstd::prelude::*;
use crate::binary32::{product, quotient, ONE};
use crate::error::Error;
use crate::magnification::Magnification;
use crate::quantity::i_quantity_factory::IQuantityFactory;
use crate::quantity::quantity::Quantity;
use crate::quantity::quantity_amount::QuantityAmount;
use crate::rate::{Rate, RateResult};
use crate::unit::UnitId;

verus! {

/// What a converter holds: its reference unit and, for every registered
/// unit, the magnification that leads from the reference unit to it.
pub struct Rates {
    pub reference: UnitId,
    pub rates: Map<UnitId, Magnification>,
}

impl Rates {
    /// What every converter's rates satisfy: they are finitely many, none is
    /// zero, and the reference unit, where it is registered, leads to itself
    /// with magnification one.
    pub open spec fn valid(self) -> bool {
        &&& self.rates.dom().finite()
        &&& forall|unit: UnitId| #[trigger]
            self.rates.contains_key(unit) ==> !self.rates[unit].zero()
        &&& self.rates.contains_key(self.reference) ==> self.rates[self.reference].value == ONE
    }

    /// The rates of a fresh converter: the reference unit alone, leading to
    /// itself with magnification one.
    pub open spec fn new(reference: UnitId) -> Rates {
        Rates { reference, rates: Map::empty().insert(reference, Magnification { value: ONE }) }
    }

    /// Whether a rate to `to` is registered.
    pub open spec fn already_added(self, to: UnitId) -> bool {
        self.rates.contains_key(to)
    }

    /// The rates after a request to register `magnification` for `to`, and
    /// the answer to the request.
    pub open spec fn add_or_update(self, to: UnitId, magnification: Magnification) -> (
        Rates,
        RateResult<()>,
    ) {
        if magnification.zero() {
            (self, Err(Error::DivideByZero))
        } else if to == self.reference {
            (self, Err(Error::AlreadyAdded))
        } else {
            (Rates { rates: self.rates.insert(to, magnification), ..self }, Ok(()))
        }
    }

    /// The rates after a request to remove the rate to `to`, and the answer
    /// to the request.
    pub open spec fn remove(self, to: UnitId) -> (Rates, RateResult<()>) {
        if self.rates.contains_key(to) {
            (Rates { rates: self.rates.remove(to), ..self }, Ok(()))
        } else {
            (self, Err(Error::NotAdded(self.reference, to)))
        }
    }

    /// The magnification from `from` to `to`: that of `to` divided by that
    /// of `from`, both taken from the reference unit.
    pub open spec fn magnification(self, from: UnitId, to: UnitId) -> RateResult<Magnification> {
        if !self.rates.contains_key(from) || !self.rates.contains_key(to) {
            Err(Error::NotAdded(from, to))
        } else if self.rates[from].zero() {
            Err(Error::DivideByZero)
        } else {
            Ok(Magnification { value: quotient(self.rates[to].value, self.rates[from].value) })
        }
    }

    /// The amount `amount` of unit `from`, expressed in unit `to`.
    pub open spec fn converted_amount(
        self,
        amount: QuantityAmount,
        from: UnitId,
        to: UnitId,
    ) -> RateResult<QuantityAmount> {
        match self.magnification(from, to) {
            Ok(magnification) => Ok(
                QuantityAmount { value: product(magnification.value, amount.value) },
            ),
            Err(error) => Err(error),
        }
    }
}

/// The conversion rates that lead from one reference unit to other units.
#[derive(Debug, Clone)]
pub struct Converter {
    from: UnitId,
    to: BTreeMap<i32, Rate>,
}

impl View for Converter {
    type V = Rates;

    closed spec fn view(&self) -> Rates {
        Rates {
            reference: self.from,
            rates: Map::new(
                |unit: UnitId| self.to@.contains_key(unit@),
                |unit: UnitId| self.to@[unit@].factor(),
            ),
        }
    }
}

impl Converter {
    /// Whether the converter is well formed: every stored rate leads from
    /// the reference unit to the unit it is stored under, none is zero, and
    /// the reference unit's own rate, where it is stored, is one.  Every
    /// converter that this library hands out is well formed, and every
    /// operation keeps it so.
    pub closed spec fn wf(&self) -> bool {
        forall|key: i32| #[trigger]
            self.to@.contains_key(key) ==> {
                &&& self.to@[key].source() == self.from
                &&& self.to@[key].target()@ == key
                &&& !self.to@[key].factor().zero()
                &&& key == self.from@ ==> self.to@[key].factor().value == ONE
            }
    }

    /// The rates of a well-formed converter are valid.
    pub proof fn lemma_valid(&self)
        requires
            self.wf(),
        ensures
            self@.valid(),
    {
        self.lemma_view();
    }

    /// What the view of a well-formed converter has from the stored rates.
    proof fn lemma_view(&self)
        requires
            self.wf(),
        ensures
            self@.valid(),
            self@.rates.len() == self.to@.len(),
    {
        broadcast use UnitId::lemma_numbered_view, UnitId::lemma_view_numbered;

        let keys = self.to@.dom();
        let units = self@.rates.dom();
        let numbered = |key: i32| UnitId::numbered(key);
        assert(keys.map(numbered) =~= units) by {
            assert forall|unit: UnitId| units.contains(unit) implies keys.map(numbered).contains(
                unit,
            ) by {
                assert(keys.contains(unit@) && numbered(unit@) == unit);
            }
        }
        vstd::set_lib::lemma_map_size(keys, units, numbered);
    }

    /// A converter anchored at `from`, holding nothing but the rate that
    /// leads from `from` to itself with magnification one.
    pub fn new(from: UnitId) -> (converter: Self)
        ensures
            converter.wf(),
            converter@ == Rates::new(from),
    {
        let mut to: BTreeMap<i32, Rate> = BTreeMap::new();
        to.insert(from.value(), Rate::new(from, from, Magnification::new(ONE)));
        let converter = Self { from, to };
        proof {
            broadcast use UnitId::lemma_numbered_view;

            converter.lemma_view();
            assert(converter@.rates =~= Rates::new(from).rates);
        }
        converter
    }

    /// The unit that every rate of this converter leads from.
    pub fn reference(&self) -> (reference: UnitId)
        ensures
            reference == self@.reference,
    {
        self.from
    }

    /// Whether a rate to `to` is registered, whatever its magnification.
    pub fn already_added(&self, to: UnitId) -> (added: bool)
        requires
            self.wf(),
        ensures
            added == self@.already_added(to),
    {
        self.to.contains_key(&to.value())
    }

    /// How many rates are registered, the reference unit's own included.
    pub fn len(&self) -> (len: usize)
        requires
            self.wf(),
        ensures
            len == self@.rates.len(),
    {
        proof {
            self.lemma_view();
        }
        self.to.len()
    }

    /// Registers `magnification` as the rate to `to`, in place of the rate
    /// that `to` had, if it had one.
    ///
    /// A magnification of zero is refused with `DivideByZero`, and the
    /// reference unit as target with `AlreadyAdded`; the rates then stay as
    /// they were.
    pub fn add_or_update(&mut self, to: UnitId, magnification: Magnification) -> (result:
        RateResult<()>)
        requires
            old(self).wf(),
        ensures
            final(self).wf(),
            (final(self)@, result) == old(self)@.add_or_update(to, magnification),
    {
        proof {
            self.lemma_view();
        }
        if magnification.is_zero() {
            return Err(Error::DivideByZero);
        }
        if self.from.value() == to.value() {
            proof {
                broadcast use UnitId::lemma_numbered_view;

            }
            return Err(Error::AlreadyAdded);
        }
        let new_rate = Rate::new(self.from, to, magnification);
        self.to.insert(to.value(), new_rate);
        proof {
            broadcast use UnitId::lemma_numbered_view;

            self.lemma_view();
            assert(self@.rates =~= old(self)@.rates.insert(to, magnification));
        }
        Ok(())
    }

    /// Removes the rate to `to`, or fails with `NotAdded` where there is
    /// none.  The reference unit's own rate is removed like any other.
    pub fn remove(&mut self, to: UnitId) -> (result: RateResult<()>)
        requires
            old(self).wf(),
        ensures
            final(self).wf(),
            (final(self)@, result) == old(self)@.remove(to),
    {
        proof {
            self.lemma_view();
        }
        match self.to.remove(&to.value()) {
            Some(_) => {
                proof {
                    broadcast use UnitId::lemma_numbered_view;

                    self.lemma_view();
                    assert(self@.rates =~= old(self)@.rates.remove(to));
                }
                Ok(())
            },
            None => {
                proof {
                    assert(self@.rates =~= old(self)@.rates);
                }
                Err(Error::NotAdded(self.from, to))
            },
        }
    }

    /// The magnification from `from` to `to`: the rate to `to` divided by
    /// the rate to `from`.  Fails with `NotAdded` unless both units are
    /// registered.
    pub fn magnification(&self, from: UnitId, to: UnitId) -> (result: RateResult<Magnification>)
        requires
            self.wf(),
        ensures
            result == self@.magnification(from, to),
    {
        proof {
            self.lemma_view();
        }
        let base_from = self.to.get(&from.value());
        let base_to = self.to.get(&to.value());
        match (base_from, base_to) {
            (Some(rate_from), Some(rate_to)) => {
                if rate_from.is_zero() {
                    return Err(Error::DivideByZero);
                }
                rate_to.devide_magnification(rate_from)
            },
            _ => Err(Error::NotAdded(from, to)),
        }
    }

    /// What converting makes of the factory's answer: the quantity it built,
    /// or `FactoryError` where it declined.
    pub open spec fn materialized_spec(created: Option<Quantity>) -> RateResult<Quantity> {
        match created {
            Some(quantity) => Ok(quantity),
            None => Err(Error::FactoryError),
        }
    }

    /// Turns the factory's answer into the result of a conversion.
    pub fn materialized(created: Option<Quantity>) -> (result: RateResult<Quantity>)
        ensures
            result == Self::materialized_spec(created),
    {
        match created {
            Some(quantity) => Ok(quantity),
            None => Err(Error::FactoryError),
        }
    }

    /// Whether `result` is what converting makes of some answer that the
    /// factory may give when asked for `amount` in `to`.
    pub open spec fn answered<F: IQuantityFactory + ?Sized>(
        quantity_factory: &F,
        amount: QuantityAmount,
        to: UnitId,
        result: RateResult<Quantity>,
    ) -> bool {
        exists|created: Option<Quantity>| #[trigger]
            quantity_factory.creates(amount, to, created) && result == Self::materialized_spec(
                created,
            )
    }

    /// Converts the quantity `from` into the unit `to`: its amount is
    /// multiplied by the magnification from its unit to `to`, and the factory
    /// is asked for a quantity of that amount in `to`.
    ///
    /// Fails as `magnification` does, without asking the factory; and with
    /// `FactoryError` where the factory declines.
    pub fn convert<F: IQuantityFactory + ?Sized>(
        &self,
        quantity_factory: &F,
        from: Quantity,
        to: UnitId,
    ) -> (result: RateResult<Quantity>)
        requires
            self.wf(),
        ensures
            match self@.converted_amount(from.amount, from.unit_id, to) {
                Ok(amount) => Self::answered(quantity_factory, amount, to, result),
                Err(error) => result == Err::<Quantity, Error>(error),
            },
    {
        match self.magnification(from.unit_id, to) {
            Ok(magnification) => {
                let scaled = QuantityAmount::new(magnification.value) * from.amount;
                let created = quantity_factory.create(scaled, to);
                let result = Self::materialized(created);
                proof {
                    assert(self@.converted_amount(from.amount, from.unit_id, to) == Ok::<
                        QuantityAmount,
                        Error,
                    >(scaled));
                    assert(quantity_factory.creates(scaled, to, created));
                    assert(Self::answered(quantity_factory, scaled, to, result));
                }
                result
            },
            Err(error) => Err(error),
        }
    }
}

} // verus!
