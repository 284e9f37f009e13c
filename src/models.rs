//! Stored records, as read from the database.
use vstd::prelude::*;

verus! {

/// A stored user account.
pub struct User {
    pub id: i32,
    pub username: String,
    pub display_name: String,
    pub password_hash: String,
    pub email_address: String,
    pub use_email_address_for_gravatar: bool,
    pub gravatar_alternative: String,
}

/// A stored quantity type: what a peripheral measures, and in which unit.
pub struct QuantityType {
    pub id: i32,
    pub physical_quantity: String,
    pub physical_unit: String,
    pub physical_unit_symbol: Option<String>,
}

/// A stored link between a peripheral definition and a quantity type that
/// its peripherals are expected to measure.
pub struct PeripheralDefinitionExpectedQuantityType {
    pub id: i32,
    pub peripheral_definition_id: i32,
    pub quantity_type_id: i32,
}

} // verus!
