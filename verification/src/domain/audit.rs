//! Audit log entries: guild administration actions, recorded in time order.

use vstd::prelude::*;
use crate::domain::id::{RealmId, Snowflake, UserId};

verus! {

/// Audited action.
#[derive(Clone, Copy, Debug, PartialEq, Eq)]
pub enum AuditAction {
    ChannelCreate,
    RoleCreate,
    MemberRoleUpdate,
    MemberNickUpdate,
    MemberKick,
    WebhookCreate,
    WebhookDelete,
}

/// The stored action code.
pub open spec fn audit_code(a: AuditAction) -> i16 {
    match a {
        AuditAction::ChannelCreate => 10,
        AuditAction::RoleCreate => 30,
        AuditAction::MemberRoleUpdate => 25,
        AuditAction::MemberNickUpdate => 24,
        AuditAction::MemberKick => 20,
        AuditAction::WebhookCreate => 50,
        AuditAction::WebhookDelete => 52,
    }
}

impl AuditAction {
    pub fn code(self) -> (c: i16)
        ensures
            c == audit_code(self),
    {
        match self {
            AuditAction::ChannelCreate => 10,
            AuditAction::RoleCreate => 30,
            AuditAction::MemberRoleUpdate => 25,
            AuditAction::MemberNickUpdate => 24,
            AuditAction::MemberKick => 20,
            AuditAction::WebhookCreate => 50,
            AuditAction::WebhookDelete => 52,
        }
    }

    pub fn from_code(c: i16) -> (a: Option<Self>)
        ensures
            a matches Some(x) ==> audit_code(x) == c,
            a is None <==> !(exists|x: AuditAction| audit_code(x) == c),
    {
        let r = match c {
            10 => Some(AuditAction::ChannelCreate),
            30 => Some(AuditAction::RoleCreate),
            25 => Some(AuditAction::MemberRoleUpdate),
            24 => Some(AuditAction::MemberNickUpdate),
            20 => Some(AuditAction::MemberKick),
            50 => Some(AuditAction::WebhookCreate),
            52 => Some(AuditAction::WebhookDelete),
            _ => None,
        };
        proof {
            if r is None {
                assert forall|x: AuditAction| audit_code(x) != c by {
                    match x {
                        AuditAction::ChannelCreate => {},
                        AuditAction::RoleCreate => {},
                        AuditAction::MemberRoleUpdate => {},
                        AuditAction::MemberNickUpdate => {},
                        AuditAction::MemberKick => {},
                        AuditAction::WebhookCreate => {},
                        AuditAction::WebhookDelete => {},
                    }
                }
            }
        }
        r
    }
}

/// Codes identify actions: decoding the code of an action gives it back.
pub proof fn lemma_audit_code_round_trip(a: AuditAction, b: AuditAction)
    ensures
        audit_code(a) == audit_code(b) ==> a == b,
{
}

/// A stored audit entry.
#[derive(Clone, Debug, PartialEq, Eq)]
pub struct AuditEntry {
    pub id: Snowflake,
    pub realm_id: RealmId,
    pub actor_id: Option<UserId>,
    pub action: AuditAction,
    /// Raw id of the target (channel, role, user, webhook, ...), if any.
    pub target_id: Option<u64>,
    /// Opaque JSON text describing the change, if any.
    pub changes: Option<String>,
}

/// Input for a new audit entry.
#[derive(Clone, Debug)]
pub struct NewAuditEntry {
    pub id: Snowflake,
    pub realm_id: RealmId,
    pub actor_id: UserId,
    pub action: AuditAction,
    pub target_id: Option<u64>,
    pub changes: Option<String>,
}

} // verus!
