//! Friends and blocks. Relations are directed rows: a friendship between A and
//! B is two rows (A→B and B→A); a request from A to B is `PendingOut` on A's row
//! and `PendingIn` on B's.

use vstd::prelude::*;
use crate::domain::id::UserId;
use crate::text::str_eq;

verus! {

/// Relation kind, seen from the row owner's side.
#[derive(Clone, Copy, Debug, PartialEq, Eq)]
pub enum RelationKind {
    Friend,
    /// A request the other user sent to me, awaiting my answer.
    PendingIn,
    /// A request I sent, awaiting the other user's answer.
    PendingOut,
    Blocked,
}

/// The stored name of a relation kind.
pub open spec fn relation_kind_name(k: RelationKind) -> Seq<char> {
    match k {
        RelationKind::Friend => "friend"@,
        RelationKind::PendingIn => "pending_in"@,
        RelationKind::PendingOut => "pending_out"@,
        RelationKind::Blocked => "blocked"@,
    }
}

/// The relation kind whose stored name is `s`, if any.
pub open spec fn relation_kind_of(s: Seq<char>) -> Option<RelationKind> {
    if s == "friend"@ {
        Some(RelationKind::Friend)
    } else if s == "pending_in"@ {
        Some(RelationKind::PendingIn)
    } else if s == "pending_out"@ {
        Some(RelationKind::PendingOut)
    } else if s == "blocked"@ {
        Some(RelationKind::Blocked)
    } else {
        None
    }
}

/// The kind the other user's row holds when mine holds `k`: requests flip
/// direction, friendship and blocks keep their kind.
pub open spec fn mirror_of(k: RelationKind) -> RelationKind {
    match k {
        RelationKind::Friend => RelationKind::Friend,
        RelationKind::PendingIn => RelationKind::PendingOut,
        RelationKind::PendingOut => RelationKind::PendingIn,
        RelationKind::Blocked => RelationKind::Blocked,
    }
}

impl RelationKind {
    pub fn as_str(self) -> (s: &'static str)
        ensures
            s@ == relation_kind_name(self),
    {
        match self {
            RelationKind::Friend => "friend",
            RelationKind::PendingIn => "pending_in",
            RelationKind::PendingOut => "pending_out",
            RelationKind::Blocked => "blocked",
        }
    }

    pub fn parse(s: &str) -> (k: Option<Self>)
        ensures
            k == relation_kind_of(s@),
    {
        if str_eq(s, "friend") {
            Some(RelationKind::Friend)
        } else if str_eq(s, "pending_in") {
            Some(RelationKind::PendingIn)
        } else if str_eq(s, "pending_out") {
            Some(RelationKind::PendingOut)
        } else if str_eq(s, "blocked") {
            Some(RelationKind::Blocked)
        } else {
            None
        }
    }

    pub fn mirror(self) -> (m: Self)
        ensures
            m == mirror_of(self),
    {
        match self {
            RelationKind::Friend => RelationKind::Friend,
            RelationKind::PendingIn => RelationKind::PendingOut,
            RelationKind::PendingOut => RelationKind::PendingIn,
            RelationKind::Blocked => RelationKind::Blocked,
        }
    }
}

/// Parsing the stored name of a relation kind gives the kind back.
pub proof fn lemma_relation_kind_round_trip(k: RelationKind)
    ensures
        relation_kind_of(relation_kind_name(k)) == Some(k),
{
    reveal_strlit("friend");
    reveal_strlit("pending_in");
    reveal_strlit("pending_out");
    reveal_strlit("blocked");
    assert("friend"@[0] == 'f');
    assert("pending_in"@[0] == 'p' && "pending_in"@.len() == 10);
    assert("pending_out"@[0] == 'p' && "pending_out"@.len() == 11);
    assert("blocked"@[0] == 'b');
}

/// Mirroring twice gives the kind back.
pub proof fn lemma_mirror_involutive(k: RelationKind)
    ensures
        mirror_of(mirror_of(k)) == k,
{
}

/// One directed relation row (user → target).
#[derive(Clone, Debug, PartialEq, Eq)]
pub struct Relationship {
    pub user_id: UserId,
    pub target_id: UserId,
    pub kind: RelationKind,
}

} // verus!
