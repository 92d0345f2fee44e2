//! Event sourcing: the append-only realm event log and its pure projection.
//!
//! A projection is a deterministic fold of the event sequence: the same events
//! always give the same state, and applying a tail of the log to the state of
//! its head gives the state of the whole log.

use vstd::prelude::*;
use std::collections::{BTreeMap, BTreeSet};
use crate::domain::id::{ChannelId, MessageId, RealmId, UserId};

verus! {

/// A fact that happened in a realm: the unit of the append-only log.
#[derive(Clone, Debug, PartialEq, Eq)]
pub enum RealmEventKind {
    /// A message was created.
    MessageCreated { message_id: MessageId, channel_id: ChannelId, author: UserId },
    /// A message was (soft-)deleted.
    MessageDeleted { message_id: MessageId, channel_id: ChannelId },
    /// A member joined.
    MemberJoined { user: UserId },
    /// A member left.
    MemberLeft { user: UserId },
}

/// Stable storage code of an event kind.
pub open spec fn event_code(k: RealmEventKind) -> i16 {
    match k {
        RealmEventKind::MessageCreated { .. } => 1,
        RealmEventKind::MessageDeleted { .. } => 2,
        RealmEventKind::MemberJoined { .. } => 3,
        RealmEventKind::MemberLeft { .. } => 4,
    }
}

impl RealmEventKind {
    pub fn code(&self) -> (c: i16)
        ensures
            c == event_code(*self),
    {
        match self {
            RealmEventKind::MessageCreated { .. } => 1,
            RealmEventKind::MessageDeleted { .. } => 2,
            RealmEventKind::MemberJoined { .. } => 3,
            RealmEventKind::MemberLeft { .. } => 4,
        }
    }
}

/// One event read from the log, with its per-realm sequence number.
#[derive(Clone, Debug, PartialEq, Eq)]
pub struct RealmEventRecord {
    pub realm_id: RealmId,
    /// Per-realm sequence number (from 1): order and replay cursor.
    pub seq: u64,
    pub kind: RealmEventKind,
}

/// Abstract projection state: (members, live message count, last created
/// message id, last message id per channel, last applied sequence number).
pub type ProjectionState = (Set<u64>, int, Option<u64>, Map<u64, u64>, u64);

/// The state before any event.
pub open spec fn empty_projection() -> ProjectionState {
    (Set::empty(), 0, None, Map::empty(), 0)
}

/// Folds one event into the state. A created message counts one more live
/// message and raises the overall and per-channel last ids to at least its id;
/// a deletion counts one fewer, never below zero; joins and leaves add and
/// remove the member.
pub open spec fn apply_event(s: ProjectionState, k: RealmEventKind) -> ProjectionState {
    match k {
        RealmEventKind::MessageCreated { message_id, channel_id, .. } => {
            let raw = message_id.0.0;
            let ch = channel_id.0.0;
            let last = match s.2 {
                Some(cur) => if raw > cur { Some(raw) } else { Some(cur) },
                None => Some(raw),
            };
            let slot = if s.3.contains_key(ch) && s.3[ch] > raw { s.3[ch] } else { raw };
            (s.0, s.1 + 1, last, s.3.insert(ch, slot), s.4)
        },
        RealmEventKind::MessageDeleted { .. } => {
            (s.0, if s.1 > 0 { s.1 - 1 } else { 0 }, s.2, s.3, s.4)
        },
        RealmEventKind::MemberJoined { user } => (s.0.insert(user.0.0), s.1, s.2, s.3, s.4),
        RealmEventKind::MemberLeft { user } => (s.0.remove(user.0.0), s.1, s.2, s.3, s.4),
    }
}

/// Folds one record: its event, then the cursor moves to its sequence number.
pub open spec fn apply_rec(s: ProjectionState, r: RealmEventRecord) -> ProjectionState {
    let t = apply_event(s, r.kind);
    (t.0, t.1, t.2, t.3, r.seq)
}

/// Folds a sequence of records, in order, into `s`.
pub open spec fn fold_records(s: ProjectionState, rs: Seq<RealmEventRecord>) -> ProjectionState
    decreases rs.len(),
{
    if rs.len() == 0 {
        s
    } else {
        apply_rec(fold_records(s, rs.drop_last()), rs.last())
    }
}

/// Derived realm state (read model): a pure function of the events.
#[derive(Clone, Debug, PartialEq, Eq)]
pub struct RealmProjection {
    /// Current members (joined minus left).
    pub members: BTreeSet<u64>,
    /// Live messages (created minus deleted, floored at zero).
    pub message_count: u64,
    /// Largest created message id.
    pub last_message_id: Option<u64>,
    /// Largest created message id per channel.
    pub last_message_by_channel: BTreeMap<u64, u64>,
    /// Last applied sequence number (replay cursor).
    pub last_seq: u64,
}

impl RealmProjection {
    /// The abstract state of this projection.
    pub open spec fn state(&self) -> ProjectionState {
        (
            self.members@,
            self.message_count as int,
            self.last_message_id,
            self.last_message_by_channel@,
            self.last_seq,
        )
    }

    pub fn new() -> (p: Self)
        ensures
            p.state() == empty_projection(),
    {
        RealmProjection {
            members: BTreeSet::new(),
            message_count: 0,
            last_message_id: None,
            last_message_by_channel: BTreeMap::new(),
            last_seq: 0,
        }
    }

    /// Folds one event into the state. The live count must have room for a
    /// created message (the count is a `u64`).
    pub fn apply(&mut self, kind: &RealmEventKind)
        requires
            kind is MessageCreated ==> old(self).message_count < u64::MAX,
        ensures
            final(self).state() == apply_event(old(self).state(), *kind),
    {
        match kind {
            RealmEventKind::MessageCreated { message_id, channel_id, .. } => {
                self.message_count = self.message_count + 1;
                let raw = message_id.0.raw();
                match self.last_message_id {
                    Some(cur) => {
                        if raw > cur {
                            self.last_message_id = Some(raw);
                        }
                    },
                    None => {
                        self.last_message_id = Some(raw);
                    },
                }
                let ch = channel_id.0.raw();
                let slot = match self.last_message_by_channel.get(&ch) {
                    Some(v) => if *v > raw { *v } else { raw },
                    None => raw,
                };
                self.last_message_by_channel.insert(ch, slot);
            },
            RealmEventKind::MessageDeleted { .. } => {
                self.message_count = self.message_count.saturating_sub(1);
            },
            RealmEventKind::MemberJoined { user } => {
                self.members.insert(user.0.raw());
            },
            RealmEventKind::MemberLeft { user } => {
                self.members.remove(&user.0.raw());
            },
        }
    }

    /// Folds one record and moves the cursor to its sequence number.
    pub fn apply_record(&mut self, rec: &RealmEventRecord)
        requires
            rec.kind is MessageCreated ==> old(self).message_count < u64::MAX,
        ensures
            final(self).state() == apply_rec(old(self).state(), *rec),
    {
        self.apply(&rec.kind);
        self.last_seq = rec.seq;
    }

    /// Rebuilds the state by replaying the log from the beginning.
    pub fn replay(events: &[RealmEventRecord]) -> (p: Self)
        requires
            events@.len() < u64::MAX,
        ensures
            p.state() == fold_records(empty_projection(), events@),
    {
        let mut p = Self::new();
        let mut i: usize = 0;
        while i < events.len()
            invariant
                i <= events@.len(),
                events@.len() < u64::MAX,
                p.message_count <= i,
                p.state() == fold_records(empty_projection(), events@.subrange(0, i as int)),
            decreases events.len() - i,
        {
            proof {
                assert(events@.subrange(0, i + 1).drop_last() =~= events@.subrange(0, i as int));
            }
            p.apply_record(&events[i]);
            i = i + 1;
        }
        assert(events@.subrange(0, events@.len() as int) =~= events@);
        p
    }
}

/// Folding the whole log equals folding its head and then its tail: an
/// incremental replay from a checkpoint converges to the full replay.
pub proof fn lemma_fold_append(s: ProjectionState, a: Seq<RealmEventRecord>, b: Seq<RealmEventRecord>)
    ensures
        fold_records(fold_records(s, a), b) == fold_records(s, a + b),
    decreases b.len(),
{
    if b.len() == 0 {
        assert(a + b =~= a);
    } else {
        lemma_fold_append(s, a, b.drop_last());
        assert((a + b).drop_last() =~= a + b.drop_last());
        assert((a + b).last() == b.last());
    }
}

/// After any log, each channel's last id is at least every message id created
/// in that channel, and the live count never exceeds the number of events.
pub proof fn lemma_fold_bounds(rs: Seq<RealmEventRecord>)
    ensures
        fold_records(empty_projection(), rs).1 <= rs.len(),
        fold_records(empty_projection(), rs).1 >= 0,
        forall|i: int|
            0 <= i < rs.len() ==> match #[trigger] rs[i].kind {
                RealmEventKind::MessageCreated { message_id, channel_id, .. } => {
                    &&& fold_records(empty_projection(), rs).3.contains_key(channel_id.0.0)
                    &&& fold_records(empty_projection(), rs).3[channel_id.0.0] >= message_id.0.0
                    &&& fold_records(empty_projection(), rs).2 matches Some(m) && m >= message_id.0.0
                },
                _ => true,
            },
    decreases rs.len(),
{
    if rs.len() > 0 {
        let init = rs.drop_last();
        lemma_fold_bounds(init);
        assert forall|i: int| 0 <= i < init.len() implies #[trigger] rs[i] == init[i] by {}
    }
}

/// Created messages fold in either order: two creations applied one way or
/// the other give the same state (the live count rises by two, and the last
/// ids, overall and per channel, are maxima).
pub proof fn lemma_created_commute(s: ProjectionState, e1: RealmEventKind, e2: RealmEventKind)
    requires
        e1 is MessageCreated,
        e2 is MessageCreated,
    ensures
        apply_event(apply_event(s, e1), e2) == apply_event(apply_event(s, e2), e1),
{
    let a = apply_event(apply_event(s, e1), e2);
    let b = apply_event(apply_event(s, e2), e1);
    assert(a.3 =~= b.3);
}

/// Replaying nothing gives the empty projection, and deletions never take
/// the live count below zero: a log of deletions alone leaves it at zero.
pub proof fn lemma_deletions_never_underflow(rs: Seq<RealmEventRecord>)
    requires
        forall|i: int| 0 <= i < rs.len() ==> (#[trigger] rs[i]).kind is MessageDeleted,
    ensures
        fold_records(empty_projection(), Seq::empty()) == empty_projection(),
        fold_records(empty_projection(), rs).1 == 0,
    decreases rs.len(),
{
    if rs.len() > 0 {
        let init = rs.drop_last();
        assert forall|i: int| 0 <= i < init.len() implies (#[trigger] init[i]).kind is MessageDeleted by {
            assert(init[i] == rs[i]);
        }
        lemma_deletions_never_underflow(init);
        assert(rs.last() == rs[rs.len() - 1]);
    }
}

/// The number of message creations in a log.
pub open spec fn created_count(rs: Seq<RealmEventRecord>) -> int
    decreases rs.len(),
{
    if rs.len() == 0 {
        0
    } else {
        created_count(rs.drop_last()) + if rs.last().kind is MessageCreated { 1int } else { 0int }
    }
}

/// The number of message deletions in a log.
pub open spec fn deleted_count(rs: Seq<RealmEventRecord>) -> int
    decreases rs.len(),
{
    if rs.len() == 0 {
        0
    } else {
        deleted_count(rs.drop_last()) + if rs.last().kind is MessageDeleted { 1int } else { 0int }
    }
}

/// How each event moves the live message count: a creation adds one, a
/// deletion takes one away from a positive count and leaves zero at zero,
/// and membership events leave it alone.
pub proof fn lemma_live_count_step(s: ProjectionState, k: RealmEventKind)
    requires
        s.1 >= 0,
    ensures
        k is MessageCreated ==> apply_event(s, k).1 == s.1 + 1,
        k is MessageDeleted && s.1 > 0 ==> apply_event(s, k).1 == s.1 - 1,
        k is MessageDeleted && s.1 == 0 ==> apply_event(s, k).1 == 0,
        k is MemberJoined || k is MemberLeft ==> apply_event(s, k).1 == s.1,
{
}

/// How each event moves the other fields: a join adds the user to the
/// members and a leave removes them; a creation raises the overall and the
/// channel's last message id to at least its id, keeping the larger one, and
/// leaves other channels alone; no event moves the replay cursor.
pub proof fn lemma_event_effects(s: ProjectionState, k: RealmEventKind)
    ensures
        k matches RealmEventKind::MemberJoined { user } ==> apply_event(s, k).0.contains(user.0.0)
            && (forall|u: u64| u != user.0.0 ==> (apply_event(s, k).0.contains(u) == s.0.contains(u))),
        k matches RealmEventKind::MemberLeft { user } ==> !apply_event(s, k).0.contains(user.0.0)
            && (forall|u: u64| u != user.0.0 ==> (apply_event(s, k).0.contains(u) == s.0.contains(u))),
        k matches RealmEventKind::MessageCreated { message_id, channel_id, .. } ==> ({
            let t = apply_event(s, k);
            let m = message_id.0.0;
            let c = channel_id.0.0;
            &&& t.2 matches Some(l) && l >= m && (l == m || s.2 == Some(l))
            &&& (s.2 matches Some(old) ==> t.2 matches Some(l) && l >= old)
            &&& t.3.contains_key(c) && t.3[c] >= m && (t.3[c] == m || (s.3.contains_key(c) && t.3[c] == s.3[c]))
            &&& (s.3.contains_key(c) ==> t.3[c] >= s.3[c])
            &&& forall|o: u64| o != c ==> (t.3.contains_key(o) == s.3.contains_key(o) && (s.3.contains_key(o) ==> t.3[o] == s.3[o]))
        }),
        apply_event(s, k).4 == s.4,
{
}

/// After any log the live count lies between the creations minus the
/// deletions and the creations; when no deletion ever meets a zero count
/// (every prefix creates at least as many messages as it deletes), it is
/// exactly the creations minus the deletions.
pub proof fn lemma_live_count_of_log(rs: Seq<RealmEventRecord>)
    ensures
        created_count(rs) - deleted_count(rs) <= fold_records(empty_projection(), rs).1 <= created_count(rs),
        (forall|j: int| 0 <= j <= rs.len() ==> created_count(#[trigger] rs.take(j)) >= deleted_count(rs.take(j)))
            ==> fold_records(empty_projection(), rs).1 == created_count(rs) - deleted_count(rs),
    decreases rs.len(),
{
    if rs.len() > 0 {
        let init = rs.drop_last();
        lemma_live_count_of_log(init);
        let prev = fold_records(empty_projection(), init);
        lemma_fold_bounds(init);
        lemma_live_count_step(prev, rs.last().kind);
        if forall|j: int| 0 <= j <= rs.len() ==> created_count(#[trigger] rs.take(j)) >= deleted_count(rs.take(j)) {
            assert forall|j: int| 0 <= j <= init.len() implies created_count(#[trigger] init.take(j)) >= deleted_count(
                init.take(j),
            ) by {
                assert(init.take(j) =~= rs.take(j));
            }
            assert(rs.take(rs.len() as int) =~= rs);
            assert(created_count(rs.take(rs.len() as int)) >= deleted_count(rs.take(rs.len() as int)));
        }
    }
}

} // verus!
