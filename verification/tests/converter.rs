use unit_converter::{
    add, Converter, Error, IQuantityFactory, Magnification, Quantity, QuantityAmount, QuantityId,
    Unit, UnitId,
};

fn magnification(value: f32) -> Magnification {
    Magnification::new(value.to_bits())
}

fn amount(value: f32) -> QuantityAmount {
    QuantityAmount::new(value.to_bits())
}

struct QuantityFactory;

impl IQuantityFactory for QuantityFactory {
    fn create(&self, amount: QuantityAmount, unit: UnitId) -> Option<Quantity> {
        Some(Quantity::new(QuantityId::new(0), amount, unit))
    }
}

struct DecliningFactory;

impl IQuantityFactory for DecliningFactory {
    fn create(&self, _amount: QuantityAmount, _unit: UnitId) -> Option<Quantity> {
        None
    }
}

struct UnreachableFactory;

impl IQuantityFactory for UnreachableFactory {
    fn create(&self, _amount: QuantityAmount, _unit: UnitId) -> Option<Quantity> {
        panic!("the factory must not be asked")
    }
}

#[test]
fn it_works() {
    let result = add(2, 2);
    assert_eq!(result, 4);
}

#[test]
fn usage_create_and_use() {
    let factory = QuantityFactory;
    let from: UnitId = Unit::Grams.into();
    let to: UnitId = Unit::Pieces.into();
    let mut converter = Converter::new(from);
    let _ = converter.add_or_update(to, magnification(1.5));
    let quantity = factory.create(amount(20.), from).unwrap();
    let expected = factory.create(amount(30.), to).unwrap();
    let converted = converter.convert(&factory, quantity, to).ok();
    assert_eq!(Some(expected.clone()), converted);
    let converted = converted.unwrap();
    assert_eq!(f32::from_bits(converted.amount.value), 30.0);
    assert_eq!(converted.amount.value, expected.amount.value);
    assert_eq!(converted.unit_id, to);
}

#[test]
fn root() {
    let from: UnitId = Unit::Grams.into();
    let to1: UnitId = Unit::Pieces.into();
    let mut converter = Converter::new(from);

    let derived = converter.magnification(from, from);
    assert_eq!(Ok(magnification(1.0)), derived);
    assert_eq!(1, converter.len());

    let mistakes = magnification(2.0);
    let result = converter.add_or_update(from, mistakes);
    assert_eq!(Err(Error::AlreadyAdded), result);

    let derived = converter.magnification(from, from);
    assert_eq!(Ok(magnification(1.0)), derived);
    assert_eq!(1, converter.len());

    let derived = converter.magnification(from, to1);
    assert_eq!(Err(Error::NotAdded(from, to1)), derived);

    let derived = converter.magnification(to1, from);
    assert_eq!(Err(Error::NotAdded(to1, from)), derived);

    assert!(converter.already_added(from));
}

#[test]
fn basic_normal() {
    let from: UnitId = Unit::Grams.into();
    let to1: UnitId = Unit::Pieces.into();
    let mut converter = Converter::new(from);
    let from_to1 = magnification(2.0);
    let _ = converter.add_or_update(to1, from_to1);

    let derived = converter.magnification(from, to1);
    assert_eq!(Ok(from_to1), derived);
    let derived = converter.magnification(to1, from);
    assert_eq!(Ok(magnification(1.0) / from_to1), derived);
    assert_eq!(Ok(magnification(1.0 / 2.0)), derived);
    assert_eq!(derived.unwrap().value, 0.5f32.to_bits());
}

#[test]
fn basic_equality() {
    let from: UnitId = Unit::Grams.into();
    let to1: UnitId = Unit::Pieces.into();
    let mut converter = Converter::new(from);
    let _ = converter.add_or_update(to1, magnification(2.0));

    let derived = converter.magnification(from, from);
    assert_eq!(Ok(magnification(1.0)), derived);
    let derived = converter.magnification(to1, to1);
    assert_eq!(Ok(magnification(1.0)), derived);
}

#[test]
fn basic_update() {
    let from: UnitId = Unit::Grams.into();
    let to1: UnitId = Unit::Pieces.into();
    let mut converter = Converter::new(from);
    let from_to1 = magnification(2.0);
    let _ = converter.add_or_update(to1, from_to1);

    let count_from_and_to1 = 2;
    let derived = converter.magnification(from, to1);
    assert_eq!(Ok(from_to1), derived);
    assert_eq!(count_from_and_to1, converter.len());
    let from_to1 = magnification(3.0);
    let result = converter.add_or_update(to1, from_to1);
    assert_eq!(Ok(()), result);
    let derived = converter.magnification(from, to1);
    assert_eq!(Ok(from_to1), derived);
    assert_eq!(derived.unwrap().value, 3.0f32.to_bits());
    assert_eq!(count_from_and_to1, converter.len());
}

#[test]
fn indirectly_from() {
    let from: UnitId = Unit::Grams.into();
    let to1: UnitId = Unit::Pieces.into();
    let to2: UnitId = Unit::Lots.into();
    let mut converter = Converter::new(from);
    let from_to1 = magnification(2.0);
    let from_to2 = magnification(10.0);
    let _ = converter.add_or_update(to1, from_to1);
    let _ = converter.add_or_update(to2, from_to2);

    let derived = converter.magnification(from, to1);
    assert_eq!(Ok(from_to1), derived);
    let derived = converter.magnification(to1, from);
    assert_eq!(Ok(magnification(1.0) / from_to1), derived);
}

#[test]
fn indirectly_to() {
    let from: UnitId = Unit::Grams.into();
    let to1: UnitId = Unit::Pieces.into();
    let to2: UnitId = Unit::Lots.into();
    let mut converter = Converter::new(from);
    let from_to1 = magnification(2.0);
    let from_to2 = magnification(10.0);
    let _ = converter.add_or_update(to1, from_to1);
    let _ = converter.add_or_update(to2, from_to2);

    let derived = converter.magnification(from, to2);
    assert_eq!(Ok(from_to2), derived);
    let derived = converter.magnification(to2, from);
    assert_eq!(Ok(magnification(1.0) / from_to2), derived);
    assert_eq!(derived.unwrap().value, (1.0f32 / 10.0f32).to_bits());
}

#[test]
fn converter_addition() {
    let from: UnitId = Unit::Grams.into();
    let to1: UnitId = Unit::Pieces.into();
    let to2: UnitId = Unit::Lots.into();
    let mut converter = Converter::new(from);
    let from_to = magnification(2.0);
    let from_target = magnification(10.0);

    let result = converter.add_or_update(to1, from_to);
    assert_eq!(Ok(()), result);
    let result = converter.add_or_update(to2, from_target);
    assert_eq!(Ok(()), result);

    let derived = converter.magnification(to1, to2);
    assert_eq!(Ok(from_target / from_to), derived);
    assert_eq!(Ok(magnification(5.0)), derived);
    let back = converter.magnification(to2, to1);
    assert_eq!(Ok(from_to / from_target), back);
    assert_eq!(back.unwrap().value, (2.0f32 / 10.0f32).to_bits());
}

#[test]
fn converter_addition_at_the_other_value() {
    let from: UnitId = Unit::Grams.into();
    let to1: UnitId = Unit::Pieces.into();
    let to2: UnitId = Unit::Lots.into();
    let mut converter = Converter::new(from);
    let from_to = magnification(2.0);
    let from_target = magnification(8.0);

    let result = converter.add_or_update(to1, from_to);
    assert_eq!(Ok(()), result);
    let result = converter.add_or_update(to2, from_target);
    assert_eq!(Ok(()), result);

    let derived = converter.magnification(to1, to2);
    assert_eq!(Ok(from_target / from_to), derived);
    assert_eq!(Ok(magnification(4.0)), derived);
}

#[test]
fn converter_zero_addition() {
    let from: UnitId = Unit::Grams.into();
    let to1: UnitId = Unit::Pieces.into();
    let mut converter = Converter::new(from);

    let result = converter.add_or_update(to1, magnification(0.0));
    assert_eq!(Err(Error::DivideByZero), result);
    assert!(!converter.already_added(to1));
    assert_eq!(1, converter.len());

    let result = converter.add_or_update(to1, magnification(-0.0));
    assert_eq!(Err(Error::DivideByZero), result);
    assert_eq!(1, converter.len());

    let result = converter.add_or_update(from, magnification(0.0));
    assert_eq!(Err(Error::DivideByZero), result);
    assert_eq!(Ok(magnification(1.0)), converter.magnification(from, from));
}

#[test]
fn remove_rate() {
    let from: UnitId = Unit::Grams.into();
    let to1: UnitId = Unit::Pieces.into();
    let mut converter = Converter::new(from);

    assert!(!converter.already_added(to1));
    let _ = converter.add_or_update(to1, magnification(2.0));
    assert!(converter.already_added(to1));

    let result = converter.remove(to1);
    assert_eq!(Ok(()), result);
    assert!(!converter.already_added(to1));
    assert!(converter.already_added(from));

    let result = converter.remove(to1);
    assert_eq!(Err(Error::NotAdded(from, to1)), result);
}

#[test]
fn remove_takes_the_reference_rate_too() {
    let from: UnitId = Unit::Grams.into();
    let mut converter = Converter::new(from);
    assert_eq!(Ok(()), converter.remove(from));
    assert_eq!(0, converter.len());
    assert_eq!(Err(Error::NotAdded(from, from)), converter.magnification(from, from));
    assert_eq!(Err(Error::NotAdded(from, from)), converter.remove(from));
}

#[test]
fn unregistered_units_are_named_in_the_error() {
    let from: UnitId = Unit::Grams.into();
    let pieces: UnitId = Unit::Pieces.into();
    let lots: UnitId = Unit::Lots.into();
    let yen: UnitId = Unit::Yen.into();
    let mut converter = Converter::new(from);
    let _ = converter.add_or_update(pieces, magnification(2.0));

    assert_eq!(Err(Error::NotAdded(pieces, lots)), converter.magnification(pieces, lots));
    assert_eq!(Err(Error::NotAdded(lots, pieces)), converter.magnification(lots, pieces));
    assert_eq!(Err(Error::NotAdded(lots, yen)), converter.magnification(lots, yen));
}

#[test]
fn lots_and_pieces_from_grams() {
    let grams: UnitId = Unit::Grams.into();
    let lots: UnitId = Unit::Lots.into();
    let pieces: UnitId = Unit::Pieces.into();
    let mut converter = Converter::new(grams);
    assert_eq!(Ok(()), converter.add_or_update(lots, magnification(10.0)));
    assert_eq!(Ok(()), converter.add_or_update(pieces, magnification(2.0)));
    let derived = converter.magnification(pieces, lots);
    assert_eq!(Ok(magnification(5.0)), derived);
    assert_eq!(derived.unwrap().value, 5.0f32.to_bits());
    assert_eq!(3, converter.len());
}

#[test]
fn inexact_rates_round_as_division_does() {
    let grams: UnitId = Unit::Grams.into();
    let lots: UnitId = Unit::Lots.into();
    let pieces: UnitId = Unit::Pieces.into();
    let mut converter = Converter::new(grams);
    let _ = converter.add_or_update(lots, magnification(0.1));
    let _ = converter.add_or_update(pieces, magnification(3.0));
    let derived = converter.magnification(pieces, lots).unwrap();
    assert_eq!(derived.value, (0.1f32 / 3.0f32).to_bits());
    let derived = converter.magnification(lots, pieces).unwrap();
    assert_eq!(derived.value, (3.0f32 / 0.1f32).to_bits());
    let derived = converter.magnification(lots, grams).unwrap();
    assert_eq!(derived.value, (1.0f32 / 0.1f32).to_bits());
}

#[test]
fn convert_takes_a_factory_behind_a_reference() {
    let grams: UnitId = Unit::Grams.into();
    let pieces: UnitId = Unit::Pieces.into();
    let mut converter = Converter::new(grams);
    let _ = converter.add_or_update(pieces, magnification(1.5));
    let factory: &dyn IQuantityFactory = &QuantityFactory;
    let quantity = Quantity::new(QuantityId::new(1), amount(20.), grams);
    let converted = converter.convert(factory, quantity, pieces).unwrap();
    assert_eq!(converted.amount.value, 30.0f32.to_bits());
    let boxed: Box<dyn IQuantityFactory> = Box::new(DecliningFactory);
    let quantity = Quantity::new(QuantityId::new(1), amount(20.), grams);
    assert_eq!(Err(Error::FactoryError), converter.convert(boxed.as_ref(), quantity, pieces));
}

#[test]
fn reference_is_the_unit_given() {
    let grams: UnitId = Unit::Grams.into();
    let pieces: UnitId = Unit::Pieces.into();
    let mut converter = Converter::new(grams);
    assert_eq!(converter.reference(), grams);
    let _ = converter.add_or_update(pieces, magnification(1.5));
    assert_eq!(converter.reference(), grams);
    let copy = converter.clone();
    assert_eq!(copy.magnification(grams, pieces), Ok(magnification(1.5)));
}

#[test]
fn a_unit_converts_into_itself_by_one() {
    let grams: UnitId = Unit::Grams.into();
    let pieces: UnitId = Unit::Pieces.into();
    let mut converter = Converter::new(grams);
    let _ = converter.add_or_update(pieces, magnification(0.3));
    assert_eq!(converter.magnification(pieces, pieces).unwrap().value, 1.0f32.to_bits());
    let _ = converter.add_or_update(pieces, magnification(f32::INFINITY));
    assert!(f32::from_bits(converter.magnification(pieces, pieces).unwrap().value).is_nan());
}

#[test]
fn convert_reports_a_declining_factory() {
    let from: UnitId = Unit::Grams.into();
    let to: UnitId = Unit::Pieces.into();
    let mut converter = Converter::new(from);
    let _ = converter.add_or_update(to, magnification(1.5));
    let quantity = Quantity::new(QuantityId::new(7), amount(20.), from);
    let result = converter.convert(&DecliningFactory, quantity, to);
    assert_eq!(Err(Error::FactoryError), result);
}

#[test]
fn convert_fails_before_asking_the_factory() {
    let from: UnitId = Unit::Grams.into();
    let to: UnitId = Unit::Pieces.into();
    let yen: UnitId = Unit::Yen.into();
    let converter = Converter::new(from);
    let quantity = Quantity::new(QuantityId::new(7), amount(20.), from);
    let result = converter.convert(&UnreachableFactory, quantity, to);
    assert_eq!(Err(Error::NotAdded(from, to)), result);
    let quantity = Quantity::new(QuantityId::new(8), amount(20.), yen);
    let result = converter.convert(&UnreachableFactory, quantity, from);
    assert_eq!(Err(Error::NotAdded(yen, from)), result);
}

#[test]
fn convert_multiplies_by_the_derived_magnification() {
    let grams: UnitId = Unit::Grams.into();
    let lots: UnitId = Unit::Lots.into();
    let pieces: UnitId = Unit::Pieces.into();
    let mut converter = Converter::new(grams);
    let _ = converter.add_or_update(lots, magnification(10.0));
    let _ = converter.add_or_update(pieces, magnification(2.0));
    let quantity = Quantity::new(QuantityId::new(1), amount(7.0), pieces);
    let converted = converter.convert(&QuantityFactory, quantity, lots).unwrap();
    assert_eq!(f32::from_bits(converted.amount.value), 35.0);
    assert_eq!(converted.unit_id, lots);
    let quantity = Quantity::new(QuantityId::new(1), amount(0.3), grams);
    let converted = converter.convert(&QuantityFactory, quantity, grams).unwrap();
    assert_eq!(converted.amount.value, 0.3f32.to_bits());
}

#[test]
fn materialized_keeps_the_quantity_or_reports_the_factory() {
    let grams: UnitId = Unit::Grams.into();
    let quantity = Quantity::new(QuantityId::new(3), amount(1.0), grams);
    let kept = Converter::materialized(Some(quantity)).unwrap();
    assert_eq!(kept.id, QuantityId::new(3));
    assert_eq!(kept.amount.value, 1.0f32.to_bits());
    assert_eq!(Err(Error::FactoryError), Converter::materialized(None));
}

#[test]
fn a_rate_that_is_not_a_number_is_kept_and_spreads() {
    let grams: UnitId = Unit::Grams.into();
    let pieces: UnitId = Unit::Pieces.into();
    let mut converter = Converter::new(grams);
    assert_eq!(Ok(()), converter.add_or_update(pieces, magnification(f32::NAN)));
    let derived = converter.magnification(grams, pieces).unwrap();
    assert!(f32::from_bits(derived.value).is_nan());
    let derived = converter.magnification(pieces, grams).unwrap();
    assert!(f32::from_bits(derived.value).is_nan());
}
