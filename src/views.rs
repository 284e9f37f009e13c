//! What the outside world is shown of stored records.
use vstd::prelude::*;
use crate::models;

verus! {

/// A user as shown to that same user.
pub struct FullUser {
    pub id: i32,
    pub username: String,
    pub display_name: String,
    pub email_address: String,
    pub use_email_address_for_gravatar: bool,
    pub gravatar_alternative: String,
}

impl From<models::User> for FullUser {
    fn from(user: models::User) -> (r: Self) {
        FullUser {
            id: user.id,
            username: user.username,
            display_name: user.display_name,
            email_address: user.email_address,
            use_email_address_for_gravatar: user.use_email_address_for_gravatar,
            gravatar_alternative: user.gravatar_alternative,
        }
    }
}

impl vstd::std_specs::convert::FromSpecImpl<models::User> for FullUser {
    open spec fn obeys_from_spec() -> bool {
        true
    }

    /// Everything but the password hash.
    open spec fn from_spec(user: models::User) -> FullUser {
        FullUser {
            id: user.id,
            username: user.username,
            display_name: user.display_name,
            email_address: user.email_address,
            use_email_address_for_gravatar: user.use_email_address_for_gravatar,
            gravatar_alternative: user.gravatar_alternative,
        }
    }
}

/// A user as shown to others.
pub struct User {
    pub username: String,
    pub display_name: String,
    pub gravatar: String,
}

impl From<models::User> for User {
    fn from(user: models::User) -> (r: Self) {
        User {
            username: user.username,
            display_name: user.display_name,
            gravatar: if user.use_email_address_for_gravatar {
                user.email_address
            } else {
                user.gravatar_alternative
            },
        }
    }
}

impl vstd::std_specs::convert::FromSpecImpl<models::User> for User {
    open spec fn obeys_from_spec() -> bool {
        true
    }

    /// The gravatar is made from the email address where the user chose so,
    /// and from the user's alternative otherwise.
    open spec fn from_spec(user: models::User) -> User {
        User {
            username: user.username,
            display_name: user.display_name,
            gravatar: if user.use_email_address_for_gravatar {
                user.email_address
            } else {
                user.gravatar_alternative
            },
        }
    }
}

/// A link between a peripheral definition and a quantity type, each given
/// as an identifier or in full.
pub struct PeripheralDefinitionExpectedQuantityType<P, Q> {
    pub id: i32,
    pub peripheral_definition: P,
    pub quantity_type: Q,
}

impl From<models::PeripheralDefinitionExpectedQuantityType> for PeripheralDefinitionExpectedQuantityType<
    i32,
    i32,
> {
    fn from(expected: models::PeripheralDefinitionExpectedQuantityType) -> (r: Self) {
        PeripheralDefinitionExpectedQuantityType {
            id: expected.id,
            peripheral_definition: expected.peripheral_definition_id,
            quantity_type: expected.quantity_type_id,
        }
    }
}

impl vstd::std_specs::convert::FromSpecImpl<models::PeripheralDefinitionExpectedQuantityType> for PeripheralDefinitionExpectedQuantityType<
    i32,
    i32,
> {
    open spec fn obeys_from_spec() -> bool {
        true
    }

    open spec fn from_spec(
        expected: models::PeripheralDefinitionExpectedQuantityType,
    ) -> PeripheralDefinitionExpectedQuantityType<i32, i32> {
        PeripheralDefinitionExpectedQuantityType {
            id: expected.id,
            peripheral_definition: expected.peripheral_definition_id,
            quantity_type: expected.quantity_type_id,
        }
    }
}

/// A quantity type as shown to the outside world.
pub struct QuantityType {
    pub id: i32,
    pub physical_quantity: String,
    pub physical_unit: String,
    pub physical_unit_symbol: Option<String>,
}

impl From<models::QuantityType> for QuantityType {
    fn from(quantity_type: models::QuantityType) -> (r: Self) {
        QuantityType {
            id: quantity_type.id,
            physical_quantity: quantity_type.physical_quantity,
            physical_unit: quantity_type.physical_unit,
            physical_unit_symbol: quantity_type.physical_unit_symbol,
        }
    }
}

impl vstd::std_specs::convert::FromSpecImpl<models::QuantityType> for QuantityType {
    open spec fn obeys_from_spec() -> bool {
        true
    }

    open spec fn from_spec(quantity_type: models::QuantityType) -> QuantityType {
        QuantityType {
            id: quantity_type.id,
            physical_quantity: quantity_type.physical_quantity,
            physical_unit: quantity_type.physical_unit,
            physical_unit_symbol: quantity_type.physical_unit_symbol,
        }
    }
}

} // verus!
