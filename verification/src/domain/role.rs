//! Roles. The `@everyone` role of a realm has the realm's own id.

use vstd::prelude::*;
use crate::domain::id::{RealmId, RoleId};
use crate::domain::permissions::Permissions;

verus! {

/// A stored role.
#[derive(Clone, Debug, PartialEq, Eq)]
pub struct Role {
    pub id: RoleId,
    pub realm_id: RealmId,
    pub name: String,
    pub permissions: Permissions,
    pub position: i32,
}

impl Role {
    /// Whether this is the realm's `@everyone` role (its id is the realm id).
    pub fn is_everyone(&self) -> (b: bool)
        ensures
            b == (self.id.0.0 == self.realm_id.0.0),
    {
        self.id.0.raw() == self.realm_id.0.raw()
    }
}

/// Input for a new role.
#[derive(Clone, Debug)]
pub struct NewRole {
    pub id: RoleId,
    pub realm_id: RealmId,
    pub name: String,
    pub permissions: Permissions,
}

} // verus!
