//! Unit identifiers and the closed list of known units.
use vstd::prelude::*;

verus! {

/// An opaque identifier of a unit of measure.
///
/// Identifiers are told apart by their number alone, which is their view.
#[derive(Debug, Clone, Copy, PartialEq, Eq, Structural, PartialOrd, Ord, Hash)]
pub struct UnitId {
    value: i32,
}

impl View for UnitId {
    type V = i32;

    closed spec fn view(&self) -> i32 {
        self.value
    }
}

impl UnitId {
    /// The identifier with the given number.
    pub closed spec fn numbered(value: i32) -> UnitId {
        UnitId { value }
    }

    /// The identifier with the given number.
    #[verifier::when_used_as_spec(numbered)]
    pub fn new(value: i32) -> (id: Self)
        ensures
            id == UnitId::numbered(value),
            id@ == value,
    {
        Self { value }
    }

    /// The number that identifies this unit.
    pub fn value(&self) -> (value: i32)
        ensures
            value == self@,
    {
        self.value
    }

    /// An identifier is the one numbered by its view.
    pub broadcast proof fn lemma_numbered_view(id: UnitId)
        ensures
            UnitId::numbered(#[trigger] id@) == id,
    {
    }

    /// The view of a numbered identifier is its number.
    pub broadcast proof fn lemma_view_numbered(value: i32)
        ensures
            (#[trigger] UnitId::numbered(value))@ == value,
    {
    }
}

/// The units this library knows by name.
#[derive(Debug, Clone, Copy, PartialEq, Eq, Structural)]
pub enum Unit {
    Undefine,
    Lots,
    Yen,
    Grams,
    Pieces,
}

impl Unit {
    /// The number under which a named unit is identified.
    pub open spec fn number(self) -> i32 {
        match self {
            Unit::Undefine => 0,
            Unit::Lots => 1,
            Unit::Yen => 2,
            Unit::Grams => 3,
            Unit::Pieces => 4,
        }
    }
}

impl From<Unit> for UnitId {
    /// The identifier of a named unit.
    fn from(from: Unit) -> (id: UnitId) {
        match from {
            Unit::Undefine => UnitId::new(0),
            Unit::Lots => UnitId::new(1),
            Unit::Yen => UnitId::new(2),
            Unit::Grams => UnitId::new(3),
            Unit::Pieces => UnitId::new(4),
        }
    }
}

impl vstd::std_specs::convert::FromSpecImpl<Unit> for UnitId {
    open spec fn obeys_from_spec() -> bool {
        true
    }

    open spec fn from_spec(from: Unit) -> UnitId {
        UnitId::numbered(from.number())
    }
}

} // verus!
