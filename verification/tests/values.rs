use std::cmp::Ordering;
use unit_converter::{
    Magnification, Quantity, QuantityAmount, QuantityId, Rate, RateResult, Unit, UnitId,
};

fn magnification(value: f32) -> Magnification {
    Magnification::new(value.to_bits())
}

#[test]
fn named_units_have_their_numbers() {
    assert_eq!(UnitId::from(Unit::Undefine), UnitId::new(0));
    assert_eq!(UnitId::from(Unit::Lots), UnitId::new(1));
    assert_eq!(UnitId::from(Unit::Yen), UnitId::new(2));
    assert_eq!(UnitId::from(Unit::Grams), UnitId::new(3));
    assert_eq!(UnitId::from(Unit::Pieces), UnitId::new(4));
    assert_eq!(UnitId::new(-5).value(), -5);
    assert!(UnitId::new(1) < UnitId::new(2));
}

#[test]
fn quantity_id_holds_its_number() {
    assert_eq!(QuantityId::new(5).value, 5);
    assert_eq!(QuantityId::new(-3).value, -3);
    assert_eq!(QuantityId::new(7), QuantityId::new(7));
    assert_ne!(QuantityId::new(7), QuantityId::new(8));
}

#[test]
fn quantities_are_equal_by_identity() {
    let grams: UnitId = Unit::Grams.into();
    let yen: UnitId = Unit::Yen.into();
    let a = Quantity::new(QuantityId::new(1), QuantityAmount::new(1.0f32.to_bits()), grams);
    let b = Quantity::new(QuantityId::new(1), QuantityAmount::new(9.0f32.to_bits()), yen);
    let c = Quantity::new(QuantityId::new(2), QuantityAmount::new(1.0f32.to_bits()), grams);
    assert!(a == b);
    assert!(a != c);
    assert_eq!(a.amount.value, 1.0f32.to_bits());
    assert_eq!(b.unit_id, yen);
}

#[test]
fn amounts_multiply() {
    let product = QuantityAmount::new(1.5f32.to_bits()) * QuantityAmount::new(20.0f32.to_bits());
    assert_eq!(product.value, 30.0f32.to_bits());
    let product = QuantityAmount::new(0.1f32.to_bits()) * QuantityAmount::new(0.7f32.to_bits());
    assert_eq!(product.value, (0.1f32 * 0.7f32).to_bits());
}

#[test]
fn magnification_zero_is_either_zero() {
    assert!(magnification(0.0).is_zero());
    assert!(magnification(-0.0).is_zero());
    assert!(!magnification(1.0).is_zero());
    assert!(!magnification(f32::MIN_POSITIVE).is_zero());
    assert!(!Magnification::new(1).is_zero());
    assert!(!magnification(f32::NAN).is_zero());
    assert!(!magnification(f32::INFINITY).is_zero());
}

#[test]
fn magnification_equality_is_that_of_the_numbers() {
    assert_eq!(magnification(1.5), magnification(1.5));
    assert_ne!(magnification(1.5), magnification(-1.5));
    assert_ne!(magnification(1.5), magnification(1.5000001));
    assert_eq!(magnification(0.0), magnification(-0.0));
    assert_ne!(magnification(f32::NAN), magnification(f32::NAN));
    assert_ne!(magnification(f32::NAN), magnification(1.0));
    assert_eq!(magnification(f32::INFINITY), magnification(f32::INFINITY));
    assert_ne!(magnification(f32::INFINITY), magnification(f32::NEG_INFINITY));
    assert_eq!(Magnification::from(0x3fc0_0000u32), magnification(1.5));
    assert_eq!(Magnification::new(0x4120_0000).value, 10.0f32.to_bits());
}

#[test]
fn magnifications_divide() {
    assert_eq!((magnification(10.0) / magnification(2.0)).value, 5.0f32.to_bits());
    assert_eq!((magnification(1.0) / magnification(3.0)).value, (1.0f32 / 3.0f32).to_bits());
    assert_eq!((magnification(-1.0) / magnification(8.0)).value, (-0.125f32).to_bits());
    assert_eq!((magnification(0.0) / magnification(-8.0)).value, (-0.0f32).to_bits());
}

#[test]
fn rates_are_known_by_their_units() {
    let grams: UnitId = Unit::Grams.into();
    let lots: UnitId = Unit::Lots.into();
    let pieces: UnitId = Unit::Pieces.into();
    let a = Rate::new(grams, pieces, magnification(2.0));
    let b = Rate::new(grams, pieces, magnification(3.0));
    let c = Rate::new(grams, lots, magnification(2.0));
    let d = Rate::new(lots, pieces, magnification(2.0));
    assert!(a == b);
    assert!(a != c);
    assert!(a != d);
    assert_eq!(a.from(), grams);
    assert_eq!(a.to(), pieces);
    assert_eq!(a.magnification(), magnification(2.0));
    assert_eq!(b.magnification().value, 3.0f32.to_bits());
}

#[test]
fn rates_are_ordered_by_source_then_target() {
    let one = UnitId::new(1);
    let two = UnitId::new(2);
    let three = UnitId::new(3);
    let m = magnification(1.0);
    let n = magnification(9.0);
    assert_eq!(Rate::new(two, two, m).partial_cmp(&Rate::new(two, two, n)), Some(Ordering::Equal));
    assert_eq!(Rate::new(two, one, m).partial_cmp(&Rate::new(two, two, n)), Some(Ordering::Less));
    assert_eq!(Rate::new(two, three, m).partial_cmp(&Rate::new(two, two, n)), Some(Ordering::Greater));
    assert_eq!(Rate::new(one, three, m).partial_cmp(&Rate::new(two, one, n)), Some(Ordering::Less));
    assert_eq!(Rate::new(one, one, m).partial_cmp(&Rate::new(two, three, n)), Some(Ordering::Less));
    assert_eq!(Rate::new(three, one, m).partial_cmp(&Rate::new(two, three, n)), Some(Ordering::Greater));
    assert_eq!(Rate::new(three, three, m).partial_cmp(&Rate::new(two, one, n)), Some(Ordering::Greater));
    assert_eq!(Rate::new(two, two, m).cmp(&Rate::new(two, two, n)), Ordering::Equal);
    assert_eq!(Rate::new(one, three, m).cmp(&Rate::new(two, one, n)), Ordering::Less);
    assert_eq!(Rate::new(two, three, m).cmp(&Rate::new(two, one, n)), Ordering::Greater);
    assert!(Rate::new(one, three, m) < Rate::new(two, one, n));
    assert!(Rate::new(two, three, m) > Rate::new(two, one, n));
}

#[test]
fn rates_divide_their_magnifications() {
    let grams: UnitId = Unit::Grams.into();
    let lots: UnitId = Unit::Lots.into();
    let pieces: UnitId = Unit::Pieces.into();
    let to_lots = Rate::new(grams, lots, magnification(10.0));
    let to_pieces = Rate::new(grams, pieces, magnification(2.0));
    assert!(!to_lots.is_zero());
    assert!(Rate::new(grams, lots, magnification(0.0)).is_zero());
    let ratio: RateResult<Magnification> = to_lots.devide_magnification(&to_pieces);
    assert_eq!(ratio, Ok(magnification(5.0)));
    assert_eq!(to_pieces.devide_magnification(&to_lots).unwrap().value, 0.2f32.to_bits());
}
