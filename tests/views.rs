use astroplant_websocket::models;
use astroplant_websocket::views::{
    FullUser, PeripheralDefinitionExpectedQuantityType, QuantityType, User,
};

fn stored_user(use_email: bool) -> models::User {
    models::User {
        id: 7,
        username: "ann".to_string(),
        display_name: "Ann".to_string(),
        password_hash: "SECRET-REDACTED".to_string(),
        email_address: "ann@example.com".to_string(),
        use_email_address_for_gravatar: use_email,
        gravatar_alternative: "abc123".to_string(),
    }
}

#[test]
fn full_user_keeps_all_but_password() {
    let u = FullUser::from(stored_user(true));
    assert_eq!(u.id, 7);
    assert_eq!(u.username, "ann");
    assert_eq!(u.display_name, "Ann");
    assert_eq!(u.email_address, "ann@example.com");
    assert!(u.use_email_address_for_gravatar);
    assert_eq!(u.gravatar_alternative, "abc123");
}

#[test]
fn public_user_gravatar_choice() {
    assert_eq!(User::from(stored_user(true)).gravatar, "ann@example.com");
    let u = User::from(stored_user(false));
    assert_eq!(u.gravatar, "abc123");
    assert_eq!(u.username, "ann");
}

#[test]
fn quantity_type_and_expected_link() {
    let q = QuantityType::from(models::QuantityType {
        id: 2,
        physical_quantity: "Temperature".to_string(),
        physical_unit: "Degrees Celsius".to_string(),
        physical_unit_symbol: Some("°C".to_string()),
    });
    assert_eq!(q.id, 2);
    assert_eq!(q.physical_quantity, "Temperature");
    assert_eq!(q.physical_unit_symbol.as_deref(), Some("°C"));
    let e = PeripheralDefinitionExpectedQuantityType::from(
        models::PeripheralDefinitionExpectedQuantityType {
            id: 1,
            peripheral_definition_id: 3,
            quantity_type_id: 2,
        },
    );
    assert_eq!((e.id, e.peripheral_definition, e.quantity_type), (1, 3, 2));
}
