//! Direct messages and group DMs. A DM is a realm with a single channel, so
//! messaging, permissions and fan-out reuse the guild paths unchanged.

use vstd::prelude::*;
use crate::domain::id::{ChannelId, RealmId, UserId};
use crate::text::str_eq;

verus! {

/// Realm kind (the storage `realm_kind` enum).
#[derive(Clone, Copy, Debug, PartialEq, Eq)]
pub enum RealmKind {
    Guild,
    Dm,
    GroupDm,
}

/// The stored name of a realm kind.
pub open spec fn realm_kind_name(k: RealmKind) -> Seq<char> {
    match k {
        RealmKind::Guild => "guild"@,
        RealmKind::Dm => "dm"@,
        RealmKind::GroupDm => "group_dm"@,
    }
}

/// The realm kind whose stored name is `s`, if any.
pub open spec fn realm_kind_of(s: Seq<char>) -> Option<RealmKind> {
    if s == "guild"@ {
        Some(RealmKind::Guild)
    } else if s == "dm"@ {
        Some(RealmKind::Dm)
    } else if s == "group_dm"@ {
        Some(RealmKind::GroupDm)
    } else {
        None
    }
}

impl RealmKind {
    pub fn as_str(self) -> (s: &'static str)
        ensures
            s@ == realm_kind_name(self),
    {
        match self {
            RealmKind::Guild => "guild",
            RealmKind::Dm => "dm",
            RealmKind::GroupDm => "group_dm",
        }
    }

    pub fn parse(s: &str) -> (k: Option<Self>)
        ensures
            k == realm_kind_of(s@),
    {
        if str_eq(s, "guild") {
            Some(RealmKind::Guild)
        } else if str_eq(s, "dm") {
            Some(RealmKind::Dm)
        } else if str_eq(s, "group_dm") {
            Some(RealmKind::GroupDm)
        } else {
            None
        }
    }
}

/// Parsing the stored name of a realm kind gives the kind back.
pub proof fn lemma_realm_kind_round_trip(k: RealmKind)
    ensures
        realm_kind_of(realm_kind_name(k)) == Some(k),
{
    reveal_strlit("guild");
    reveal_strlit("dm");
    reveal_strlit("group_dm");
    assert("guild"@[0] == 'g' && "guild"@.len() == 5);
    assert("dm"@[0] == 'd');
    assert("group_dm"@[0] == 'g' && "group_dm"@.len() == 8);
}

/// Realm summary, used to manage group DMs and branch on permissions.
#[derive(Clone, Debug, PartialEq, Eq)]
pub struct RealmInfo {
    pub id: RealmId,
    pub kind: RealmKind,
    /// Owner of a group DM; `None` for guilds and 1:1 DMs.
    pub owner_id: Option<UserId>,
    pub name: Option<String>,
}

/// Handle of the single channel of a DM or group DM.
#[derive(Clone, Debug, PartialEq, Eq)]
pub struct DmChannel {
    pub realm_id: RealmId,
    pub channel_id: ChannelId,
    pub kind: RealmKind,
}

/// Input for creating a 1:1 DM.
#[derive(Clone, Debug)]
pub struct NewDm {
    pub realm_id: RealmId,
    pub channel_id: ChannelId,
    pub user_a: UserId,
    pub user_b: UserId,
}

/// Input for creating a group DM; `members` includes the owner.
#[derive(Clone, Debug)]
pub struct NewGroupDm {
    pub realm_id: RealmId,
    pub channel_id: ChannelId,
    pub owner: UserId,
    pub name: Option<String>,
    pub members: Vec<UserId>,
}

/// Normalised DM pair key: the smaller raw id first, so that a DM between the
/// same two people is found whichever order they are given in.
pub fn order_pair(a: UserId, b: UserId) -> (p: (UserId, UserId))
    ensures
        p.0.0.0 <= p.1.0.0,
        (p == (a, b)) || (p == (b, a)),
        a.0.0 <= b.0.0 ==> p == (a, b),
        a.0.0 > b.0.0 ==> p == (b, a),
{
    if a.0.raw() <= b.0.raw() {
        (a, b)
    } else {
        (b, a)
    }
}

/// The pair key does not depend on the order of the two users.
pub proof fn lemma_order_pair_symmetric(a: UserId, b: UserId)
    ensures
        (if a.0.0 <= b.0.0 { (a, b) } else { (b, a) }) == (if b.0.0 <= a.0.0 { (b, a) } else { (a, b) }),
{
}

} // verus!
