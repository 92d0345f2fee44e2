//! Presence: the statuses a connected user can set, and who hears about a
//! change (their friends).

use vstd::prelude::*;
use crate::domain::relationship::{RelationKind, Relationship};
use crate::text::str_eq;

verus! {

/// A user's presence status.
#[derive(Clone, Copy, Debug, PartialEq, Eq)]
pub enum Status {
    Online,
    Idle,
    Dnd,
    Offline,
}

/// What a client may ask for while connected: the online family only
/// (going offline is the end of the session's business).
pub open spec fn presence_status_of(s: Option<Seq<char>>) -> Option<Status> {
    match s {
        Some(t) => if t == "online"@ {
            Some(Status::Online)
        } else if t == "idle"@ {
            Some(Status::Idle)
        } else if t == "dnd"@ {
            Some(Status::Dnd)
        } else {
            None
        },
        None => None,
    }
}

/// Reads the `status` of a presence update (`None` where it is missing or
/// not a string).
pub fn parse_presence_status(status: Option<&str>) -> (r: Option<Status>)
    ensures
        r == presence_status_of(match status {
            Some(s) => Some(s@),
            None => None::<Seq<char>>,
        }),
{
    match status {
        Some(s) => {
            if str_eq(s, "online") {
                Some(Status::Online)
            } else if str_eq(s, "idle") {
                Some(Status::Idle)
            } else if str_eq(s, "dnd") {
                Some(Status::Dnd)
            } else {
                None
            }
        },
        None => None,
    }
}

/// The targets of the friend rows, in order.
pub open spec fn friends_of(rels: Seq<Relationship>) -> Seq<u64>
    decreases rels.len(),
{
    if rels.len() == 0 {
        Seq::empty()
    } else {
        let rest = friends_of(rels.drop_last());
        match rels.last().kind {
            RelationKind::Friend => rest.push(rels.last().target_id.0.0),
            _ => rest,
        }
    }
}

/// The ids of the user's friends, who are told of a presence change.
pub fn friend_ids(rels: &[Relationship]) -> (r: Vec<u64>)
    ensures
        r@ == friends_of(rels@),
{
    let mut out: Vec<u64> = Vec::new();
    let mut i: usize = 0;
    while i < rels.len()
        invariant
            i <= rels@.len(),
            out@ == friends_of(rels@.take(i as int)),
        decreases rels.len() - i,
    {
        assert(rels@.take(i + 1).drop_last() =~= rels@.take(i as int));
        match rels[i].kind {
            RelationKind::Friend => out.push(rels[i].target_id.0.0),
            _ => {},
        }
        i = i + 1;
    }
    assert(rels@.take(rels@.len() as int) =~= rels@);
    out
}

/// The number of friend rows.
pub open spec fn friend_row_count(rels: Seq<Relationship>) -> int
    decreases rels.len(),
{
    if rels.len() == 0 {
        0
    } else {
        friend_row_count(rels.drop_last()) + if rels.last().kind is Friend { 1int } else { 0int }
    }
}

/// Exactly the friends hear of a presence change: an id is in the list
/// when, and only when, some row is a friend row with that target; the list
/// has one entry per friend row.
pub proof fn lemma_friends_exact(rels: Seq<Relationship>, x: u64)
    ensures
        friends_of(rels).contains(x) <==> exists|i: int|
            0 <= i < rels.len() && (#[trigger] rels[i]).kind is Friend && rels[i].target_id.0.0 == x,
        friends_of(rels).len() == friend_row_count(rels),
        friends_of(rels).len() <= rels.len(),
    decreases rels.len(),
{
    if rels.len() > 0 {
        let init = rels.drop_last();
        lemma_friends_exact(init, x);
        let rest = friends_of(init);
        let last = rels.last();
        if exists|i: int| 0 <= i < init.len() && (#[trigger] init[i]).kind is Friend && init[i].target_id.0.0 == x {
            let i = choose|i: int| 0 <= i < init.len() && (#[trigger] init[i]).kind is Friend && init[i].target_id.0.0 == x;
            assert(rels[i] == init[i]);
        }
        if exists|i: int| 0 <= i < rels.len() && (#[trigger] rels[i]).kind is Friend && rels[i].target_id.0.0 == x {
            let i = choose|i: int| 0 <= i < rels.len() && (#[trigger] rels[i]).kind is Friend && rels[i].target_id.0.0 == x;
            if i < init.len() {
                assert(init[i] == rels[i]);
            } else {
                assert(rels[i] == last);
            }
        }
        match last.kind {
            RelationKind::Friend => {
                assert(rest.push(last.target_id.0.0)[rest.len() as int] == last.target_id.0.0);
                if rest.push(last.target_id.0.0).contains(x) && !rest.contains(x) {
                    let k = choose|k: int| 0 <= k < rest.len() + 1 && rest.push(last.target_id.0.0)[k] == x;
                    if k < rest.len() {
                        assert(rest[k] == x);
                    }
                }
                if rest.contains(x) {
                    let k = choose|k: int| 0 <= k < rest.len() && rest[k] == x;
                    assert(rest.push(last.target_id.0.0)[k] == x);
                }
            },
            _ => {},
        }
    }
}

/// The entries of a READY presence snapshot: the friends, with their
/// status, who are not offline, in order.
pub open spec fn online_of(friends: Seq<(u64, Status)>) -> Seq<(u64, Status)>
    decreases friends.len(),
{
    if friends.len() == 0 {
        Seq::empty()
    } else {
        let rest = online_of(friends.drop_last());
        match friends.last().1 {
            Status::Offline => rest,
            _ => rest.push(friends.last()),
        }
    }
}

/// Keeps the friends who are not offline.
pub fn online_friends(friends: &[(u64, Status)]) -> (r: Vec<(u64, Status)>)
    ensures
        r@ == online_of(friends@),
{
    let mut out: Vec<(u64, Status)> = Vec::new();
    let mut i: usize = 0;
    while i < friends.len()
        invariant
            i <= friends@.len(),
            out@ == online_of(friends@.take(i as int)),
        decreases friends.len() - i,
    {
        assert(friends@.take(i + 1).drop_last() =~= friends@.take(i as int));
        let (f, s) = friends[i];
        match s {
            Status::Offline => {},
            _ => out.push((f, s)),
        }
        i = i + 1;
    }
    assert(friends@.take(friends@.len() as int) =~= friends@);
    out
}

} // verus!
