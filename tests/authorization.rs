use astroplant_websocket::authorization::{KitAction, KitPrivacy, MembershipAccess};

const ALL: [KitAction; 9] = [
    KitAction::View,
    KitAction::SubscribeRealTimeMeasurements,
    KitAction::ResetPassword,
    KitAction::EditDetails,
    KitAction::EditConfiguration,
    KitAction::EditMembers,
    KitAction::SetSuperMember,
    KitAction::RpcVersion,
    KitAction::RpcUptime,
];

#[test]
fn public_kit_viewable_by_anyone() {
    let public = KitPrivacy { privacy_public_dashboard: true };
    let private = KitPrivacy { privacy_public_dashboard: false };
    assert!(KitAction::View.permission(&None, &public));
    assert!(KitAction::SubscribeRealTimeMeasurements.permission(&None, &public));
    assert!(!KitAction::View.permission(&None, &private));
    assert!(!KitAction::SubscribeRealTimeMeasurements.permission(&None, &private));
    let member = MembershipAccess { access_super: false, access_configure: false };
    assert!(KitAction::View.permission(&Some(member), &private));
}

#[test]
fn non_member_may_not_change_anything() {
    let public = KitPrivacy { privacy_public_dashboard: true };
    for action in ALL.iter().skip(2) {
        assert!(!action.permission(&None, &public));
    }
}

#[test]
fn configure_and_super_rights() {
    let kit = KitPrivacy { privacy_public_dashboard: false };
    let configure = Some(MembershipAccess { access_super: false, access_configure: true });
    let sup = Some(MembershipAccess { access_super: true, access_configure: false });
    assert!(KitAction::EditDetails.permission(&configure, &kit));
    assert!(KitAction::EditConfiguration.permission(&configure, &kit));
    assert!(!KitAction::EditMembers.permission(&configure, &kit));
    assert!(!KitAction::RpcUptime.permission(&configure, &kit));
    assert!(!KitAction::EditDetails.permission(&sup, &kit));
    for action in [
        KitAction::ResetPassword,
        KitAction::EditMembers,
        KitAction::SetSuperMember,
        KitAction::RpcVersion,
        KitAction::RpcUptime,
    ] {
        assert!(action.permission(&sup, &kit));
        assert!(!action.permission(&configure, &kit));
    }
}
