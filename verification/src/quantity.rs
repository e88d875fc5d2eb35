//! Quantities: an amount in a unit, under an identity.
pub mod i_quantity_factory;
pub mod i_quantity_repository;
pub mod quantity;
pub mod quantity_amount;
pub mod quantity_id;

pub use i_quantity_factory::IQuantityFactory;
pub use i_quantity_repository::IQuantityRepository;
pub use quantity::Quantity;
pub use quantity_amount::QuantityAmount;
pub use quantity_id::QuantityId;
