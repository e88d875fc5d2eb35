//! The numeric amount of a quantity.
use vstd::prelude::*;
use vstd::std_specs::ops::MulSpecImpl;
use crate::binary32::product;

verus! {

/// How much of its unit a quantity holds: a binary32 number, held as its
/// bit pattern.
#[derive(Debug, Clone)]
pub struct QuantityAmount {
    pub value: u32,
}

impl QuantityAmount {
    /// The amount with the given bit pattern.
    pub fn new(amount: u32) -> (a: Self)
        ensures
            a.value == amount,
    {
        Self { value: amount }
    }
}

impl core::ops::Mul for QuantityAmount {
    type Output = Self;

    /// The product of two amounts.
    fn mul(self, rhs: Self) -> (scaled: Self) {
        Self::new(crate::binary32::mul(self.value, rhs.value))
    }
}

impl MulSpecImpl for QuantityAmount {
    open spec fn obeys_mul_spec() -> bool {
        true
    }

    open spec fn mul_req(self, rhs: Self) -> bool {
        true
    }

    open spec fn mul_spec(self, rhs: Self) -> Self {
        QuantityAmount { value: product(self.value, rhs.value) }
    }
}

} // verus!
