//! The factor that converts an amount in one unit into an amount in another.
use vstd::prelude::*;
use vstd::std_specs::cmp::PartialEqSpecImpl;
use vstd::std_specs::convert::FromSpecImpl;
use vstd::std_specs::ops::DivSpecImpl;
use crate::binary32::{is_nan, is_zero, quotient};

verus! {

/// How many units of the target make one unit of the source.
///
/// The factor is a binary32 number, held as its bit pattern.  Any pattern can
/// be held; whether a zero is acceptable depends on where the factor is used.
#[derive(Debug, Clone, Copy)]
pub struct Magnification {
    pub value: u32,
}

impl Magnification {
    /// The magnification with the given bit pattern.
    pub fn new(magnification: u32) -> (m: Self)
        ensures
            m.value == magnification,
    {
        Self { value: magnification }
    }

    /// Whether the factor is positive or negative zero.
    pub open spec fn zero(&self) -> bool {
        is_zero(self.value)
    }

    /// Whether the factor is positive or negative zero.
    #[verifier::when_used_as_spec(zero)]
    pub fn is_zero(&self) -> (zero: bool)
        ensures
            zero == self.zero(),
    {
        self.value % 0x8000_0000 == 0
    }
}

impl core::ops::Div for Magnification {
    type Output = Self;

    /// The quotient of two factors; the divisor must not be zero.
    fn div(self, rhs: Self) -> (ratio: Self) {
        Self::new(crate::binary32::div(self.value, rhs.value))
    }
}

impl DivSpecImpl for Magnification {
    open spec fn obeys_div_spec() -> bool {
        true
    }

    open spec fn div_req(self, rhs: Self) -> bool {
        !rhs.zero()
    }

    open spec fn div_spec(self, rhs: Self) -> Self {
        Magnification { value: quotient(self.value, rhs.value) }
    }
}

impl PartialEq for Magnification {
    /// Equality of the two numbers: a pattern that is not a number equals
    /// nothing, the two zeros equal each other, and every other pattern
    /// equals itself only.
    fn eq(&self, other: &Self) -> (equal: bool) {
        let a: u32 = self.value % 0x8000_0000;
        let b: u32 = other.value % 0x8000_0000;
        a <= 0x7f80_0000 && b <= 0x7f80_0000 && (self.value == other.value || (a == 0 && b == 0))
    }
}

impl PartialEqSpecImpl for Magnification {
    open spec fn obeys_eq_spec() -> bool {
        true
    }

    open spec fn eq_spec(&self, other: &Self) -> bool {
        &&& !is_nan(self.value)
        &&& !is_nan(other.value)
        &&& self.value == other.value || (is_zero(self.value) && is_zero(other.value))
    }
}

impl From<u32> for Magnification {
    /// The magnification with the given bit pattern.
    fn from(from: u32) -> (m: Magnification) {
        Magnification::new(from)
    }
}

impl FromSpecImpl<u32> for Magnification {
    open spec fn obeys_from_spec() -> bool {
        true
    }

    open spec fn from_spec(from: u32) -> Magnification {
        Magnification { value: from }
    }
}

} // verus!
