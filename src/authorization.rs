//! Which actions on a kit a caller may take.
use vstd::prelude::*;

verus! {

/// An action that a user can take on a kit.
#[derive(Clone, Copy, Debug, PartialEq, Eq, Structural)]
pub enum KitAction {
    View,
    SubscribeRealTimeMeasurements,
    ResetPassword,
    EditDetails,
    EditConfiguration,
    EditMembers,
    SetSuperMember,
    RpcVersion,
    RpcUptime,
}

/// The privacy settings of a kit that decide who may view it.
#[derive(Clone, Copy, Debug, PartialEq, Eq, Structural)]
pub struct KitPrivacy {
    pub privacy_public_dashboard: bool,
}

/// The rights that a membership gives its user on its kit.
#[derive(Clone, Copy, Debug, PartialEq, Eq, Structural)]
pub struct MembershipAccess {
    pub access_super: bool,
    pub access_configure: bool,
}

/// Whether a user with membership `membership` (none for a non-member) may
/// take `action` on a kit with privacy settings `kit`.
pub open spec fn permitted(
    action: KitAction,
    membership: Option<MembershipAccess>,
    kit: KitPrivacy,
) -> bool {
    match action {
        KitAction::View | KitAction::SubscribeRealTimeMeasurements => kit.privacy_public_dashboard
            || membership is Some,
        KitAction::EditDetails | KitAction::EditConfiguration => membership matches Some(
            m,
        ) && m.access_configure,
        KitAction::ResetPassword
        | KitAction::EditMembers
        | KitAction::SetSuperMember
        | KitAction::RpcVersion
        | KitAction::RpcUptime => membership matches Some(m) && m.access_super,
    }
}

impl KitAction {
    /// Whether a user with membership `kit_membership` may take this action
    /// on a kit with privacy settings `kit`.
    pub fn permission(self, kit_membership: &Option<MembershipAccess>, kit: &KitPrivacy) -> (r: bool)
        ensures
            r == permitted(self, *kit_membership, *kit),
    {
        match self {
            KitAction::View | KitAction::SubscribeRealTimeMeasurements => {
                kit.privacy_public_dashboard || kit_membership.is_some()
            },
            KitAction::EditDetails | KitAction::EditConfiguration => match kit_membership {
                Some(m) => m.access_configure,
                None => false,
            },
            KitAction::ResetPassword | KitAction::EditMembers | KitAction::SetSuperMember => {
                match kit_membership {
                    Some(m) => m.access_super,
                    None => false,
                }
            },
            KitAction::RpcVersion | KitAction::RpcUptime => match kit_membership {
                Some(m) => m.access_super,
                None => false,
            },
        }
    }
}

} // verus!
