//! Invites: short codes that let a user join a realm, limited by a use count
//! and an expiry time.

use vstd::prelude::*;
use crate::domain::id::{ChannelId, RealmId, UserId};

verus! {

/// A stored invite.
#[derive(Clone, Debug, PartialEq, Eq)]
pub struct Invite {
    pub code: String,
    pub realm_id: RealmId,
    pub channel_id: Option<ChannelId>,
    pub inviter_id: Option<UserId>,
    pub uses: i32,
    /// 0 means unlimited.
    pub max_uses: i32,
    /// Unix seconds; `None` means it never expires.
    pub expires_at: Option<i64>,
}

/// An invite is usable at `now` when it has not expired and is not exhausted.
pub open spec fn invite_valid(uses: i32, max_uses: i32, expires_at: Option<i64>, now: i64) -> bool {
    let not_expired = match expires_at {
        Some(e) => now < e,
        None => true,
    };
    not_expired && (max_uses == 0 || uses < max_uses)
}

impl Invite {
    pub fn is_valid(&self, now_unix: i64) -> (b: bool)
        ensures
            b == invite_valid(self.uses, self.max_uses, self.expires_at, now_unix),
    {
        let not_expired = match self.expires_at {
            Some(e) => now_unix < e,
            None => true,
        };
        let not_exhausted = self.max_uses == 0 || self.uses < self.max_uses;
        not_expired && not_exhausted
    }
}

/// Input for a new invite.
#[derive(Clone, Debug)]
pub struct NewInvite {
    pub code: String,
    pub realm_id: RealmId,
    pub channel_id: Option<ChannelId>,
    pub inviter_id: Option<UserId>,
    pub max_uses: i32,
    pub expires_at: Option<i64>,
}

} // verus!
