//! Session registry of this node: per-session sequence numbers, bounded
//! replay buffers and fan-out delivery.
//!
//! A session outlives its socket: when the socket goes, the session is only
//! detached and keeps buffering, so that the client can resume it and be
//! replayed what it missed. Detached sessions are purged after a grace
//! period. The sockets themselves (live senders) are held by the caller, who
//! pushes the frames this registry hands back.

use vstd::prelude::*;
use crate::auth::digest::random_bytes;
use crate::auth::hex::{encode_hex, hex_encode};
use crate::collections::{
    key_of, lemma_key_of_injective, lemma_rank_map_empty, lemma_rank_map_index, lex_lt, rank_map,
    strictly_sorted, SortKey, SortedMap,
};
use crate::gateway::protocol::{Outgoing, ServerEvent};
use crate::text::ascii_chars;

verus! {

/// Replay buffer bound per session; older frames are evicted first, and a
/// resume that needs an evicted frame is refused.
pub const DEFAULT_REPLAY_CAP: usize = 256;

/// How long a detached session is kept for a resume, in milliseconds.
pub const DETACHED_GRACE_MS: u64 = 90_000;

/// A dispatch frame of one session's stream: its sequence number, the event
/// name and the payload (JSON text).
#[derive(Clone, Debug, PartialEq, Eq)]
pub struct DispatchFrame {
    pub s: u64,
    pub t: String,
    pub d: String,
}

impl DispatchFrame {
    /// The frame as it goes out on the socket.
    pub fn to_outgoing(&self) -> (o: Outgoing)
        ensures
            o.op == crate::gateway::protocol::op::DISPATCH,
            o.s == Some(self.s),
            o.t == Some(self.t),
            o.d == self.d,
    {
        Outgoing::dispatch(self.s, self.t.clone(), self.d.clone())
    }
}

/// What a frame says: sequence number, event name, payload.
pub type FrameView = (u64, Seq<char>, Seq<char>);

pub open spec fn frame_view(f: DispatchFrame) -> FrameView {
    (f.s, f.t@, f.d@)
}

/// The state of one session.
pub struct Session {
    user_id: u64,
    /// The last sequence number given out.
    seq: u64,
    cap: usize,
    /// The most recent frames, oldest first.
    buffer: Vec<DispatchFrame>,
    /// A socket is attached.
    live: bool,
    resume_token: String,
    /// When the socket went away (milliseconds), for the purge.
    detached_at: Option<u64>,
}

/// What a session is.
pub struct SessionView {
    pub user_id: u64,
    pub seq: u64,
    pub cap: usize,
    pub buffer: Seq<FrameView>,
    pub live: bool,
    pub token: Seq<char>,
    pub detached_at: Option<u64>,
}

impl View for Session {
    type V = SessionView;

    closed spec fn view(&self) -> SessionView {
        SessionView {
            user_id: self.user_id,
            seq: self.seq,
            cap: self.cap,
            buffer: self.buffer@.map_values(|f: DispatchFrame| frame_view(f)),
            live: self.live,
            token: self.resume_token@,
            detached_at: self.detached_at,
        }
    }
}

/// A session's buffer holds at most `cap` frames, numbered consecutively up
/// to the last sequence number.
pub open spec fn session_ok(e: SessionView) -> bool {
    &&& 0 < e.cap
    &&& e.buffer.len() == (if e.seq < e.cap { e.seq as int } else { e.cap as int })
    &&& forall|i: int| 0 <= i < e.buffer.len() ==> (#[trigger] e.buffer[i]).0 == e.seq - e.buffer.len() + 1 + i
}

/// Appends a frame to a buffer of capacity `cap`, evicting the oldest when full.
pub open spec fn push_frame(buffer: Seq<FrameView>, cap: usize, f: FrameView) -> Seq<FrameView> {
    if buffer.len() == cap {
        buffer.drop_first().push(f)
    } else {
        buffer.push(f)
    }
}

/// A session after one more dispatch of event `t` with payload `d`.
pub open spec fn bump(e: SessionView, t: Seq<char>, d: Seq<char>) -> SessionView {
    SessionView {
        seq: (e.seq + 1) as u64,
        buffer: push_frame(e.buffer, e.cap, ((e.seq + 1) as u64, t, d)),
        ..e
    }
}

/// The registry: sessions by id, and each user's fan-out targets.
pub struct HubView {
    pub sessions: Map<u64, SessionView>,
    pub subscribers: Map<u64, Set<u64>>,
}

/// The ids a sorted id set holds.
pub open spec fn id_set(m: SortedMap<u64, ()>) -> Set<u64> {
    Set::new(|s: u64| m.map().contains_key(key_of(s)))
}

/// Sessions keyed by id rank, keyed by id.
pub open spec fn sessions_view(m: Map<Seq<int>, Session>) -> Map<u64, SessionView> {
    Map::new(|k: u64| m.contains_key(key_of(k)), |k: u64| m[key_of(k)]@)
}

/// Fan-out sets keyed by user rank, keyed by user.
pub open spec fn subscribers_view(m: Map<Seq<int>, SortedMap<u64, ()>>) -> Map<u64, Set<u64>> {
    Map::new(|u: u64| m.contains_key(key_of(u)), |u: u64| id_set(m[key_of(u)]))
}

proof fn lemma_sessions_view_insert(m: Map<Seq<int>, Session>, k: u64, e: Session)
    ensures
        sessions_view(m.insert(key_of(k), e)) == sessions_view(m).insert(k, e@),
{
    assert forall|x: u64| key_of(x) == key_of(k) implies x == k by {
        lemma_key_of_injective(x, k);
    }
    assert(sessions_view(m.insert(key_of(k), e)) =~= sessions_view(m).insert(k, e@));
}

proof fn lemma_sessions_view_remove(m: Map<Seq<int>, Session>, k: u64)
    ensures
        sessions_view(m.remove(key_of(k))) == sessions_view(m).remove(k),
{
    assert forall|x: u64| key_of(x) == key_of(k) implies x == k by {
        lemma_key_of_injective(x, k);
    }
    assert(sessions_view(m.remove(key_of(k))) =~= sessions_view(m).remove(k));
}

proof fn lemma_subscribers_view_insert(m: Map<Seq<int>, SortedMap<u64, ()>>, u: u64, set: SortedMap<u64, ()>)
    ensures
        subscribers_view(m.insert(key_of(u), set)) == subscribers_view(m).insert(u, id_set(set)),
{
    assert forall|x: u64| key_of(x) == key_of(u) implies x == u by {
        lemma_key_of_injective(x, u);
    }
    assert(subscribers_view(m.insert(key_of(u), set)) =~= subscribers_view(m).insert(u, id_set(set)));
}

proof fn lemma_subscribers_view_remove(m: Map<Seq<int>, SortedMap<u64, ()>>, u: u64)
    ensures
        subscribers_view(m.remove(key_of(u))) == subscribers_view(m).remove(u),
{
    assert forall|x: u64| key_of(x) == key_of(u) implies x == u by {
        lemma_key_of_injective(x, u);
    }
    assert(subscribers_view(m.remove(key_of(u))) =~= subscribers_view(m).remove(u));
}

proof fn lemma_id_set_insert(m: SortedMap<u64, ()>, s: u64)
    ensures
        Set::new(|x: u64| m.map().insert(key_of(s), ()).contains_key(key_of(x))) == id_set(m).insert(s),
{
    assert forall|x: u64| key_of(x) == key_of(s) implies x == s by {
        lemma_key_of_injective(x, s);
    }
    assert(Set::new(|x: u64| m.map().insert(key_of(s), ()).contains_key(key_of(x))) =~= id_set(m).insert(s));
}

proof fn lemma_id_set_remove(m: SortedMap<u64, ()>, s: u64)
    ensures
        Set::new(|x: u64| m.map().remove(key_of(s)).contains_key(key_of(x))) == id_set(m).remove(s),
{
    assert forall|x: u64| key_of(x) == key_of(s) implies x == s by {
        lemma_key_of_injective(x, s);
    }
    assert(Set::new(|x: u64| m.map().remove(key_of(s)).contains_key(key_of(x))) =~= id_set(m).remove(s));
}

/// The node-local session registry.
pub struct Hub {
    sessions: SortedMap<u64, Session>,
    by_user: SortedMap<u64, SortedMap<u64, ()>>,
}

impl View for Hub {
    type V = HubView;

    closed spec fn view(&self) -> HubView {
        HubView { sessions: sessions_view(self.sessions.map()), subscribers: subscribers_view(self.by_user.map()) }
    }
}

/// A session gets one more frame.
pub open spec fn view_dispatch(v: HubView, sid: u64, t: Seq<char>, d: Seq<char>) -> HubView {
    if v.sessions.contains_key(sid) {
        HubView { sessions: v.sessions.insert(sid, bump(v.sessions[sid], t, d)), ..v }
    } else {
        v
    }
}

/// A session loses its socket at `now`: it keeps its buffer and number.
pub open spec fn view_detach(v: HubView, sid: u64, now: u64) -> HubView {
    if v.sessions.contains_key(sid) {
        HubView {
            sessions: v.sessions.insert(sid, SessionView { live: false, detached_at: Some(now), ..v.sessions[sid] }),
            ..v
        }
    } else {
        v
    }
}

/// A session's socket is dropped (a slow reader), without starting the grace.
pub open spec fn view_drop_live(v: HubView, sid: u64) -> HubView {
    if v.sessions.contains_key(sid) {
        HubView { sessions: v.sessions.insert(sid, SessionView { live: false, ..v.sessions[sid] }), ..v }
    } else {
        v
    }
}

/// The user's fan-out set gets the session.
pub open spec fn view_activate(v: HubView, user: u64, sid: u64) -> HubView {
    let cur = if v.subscribers.contains_key(user) { v.subscribers[user] } else { Set::empty() };
    HubView { subscribers: v.subscribers.insert(user, cur.insert(sid)), ..v }
}

/// A session is dropped: from the sessions, and from its own user's fan-out
/// set, which goes when it is left empty.
pub open spec fn view_drop(v: HubView, sid: u64) -> HubView {
    if !v.sessions.contains_key(sid) {
        v
    } else {
        let u = v.sessions[sid].user_id;
        let sessions = v.sessions.remove(sid);
        if !v.subscribers.contains_key(u) {
            HubView { sessions, subscribers: v.subscribers }
        } else {
            let rest = v.subscribers[u].remove(sid);
            if rest.is_empty() {
                HubView { sessions, subscribers: v.subscribers.remove(u) }
            } else {
                HubView { sessions, subscribers: v.subscribers.insert(u, rest) }
            }
        }
    }
}

impl Hub {
    /// Every map is sorted and every session's buffer is consistent.
    pub closed spec fn wf(&self) -> bool {
        &&& self.sessions.wf()
        &&& self.by_user.wf()
        &&& forall|i: int| 0 <= i < self.by_user@.len() ==> (#[trigger] self.by_user@[i]).1.wf()
        &&& forall|i: int| 0 <= i < self.sessions@.len() ==> session_ok((#[trigger] self.sessions@[i]).1@)
    }

    /// An empty registry.
    pub fn new() -> (h: Hub)
        ensures
            h.wf(),
            h@.sessions == Map::<u64, SessionView>::empty(),
            h@.subscribers == Map::<u64, Set<u64>>::empty(),
    {
        let h = Hub { sessions: SortedMap::new(), by_user: SortedMap::new() };
        assert(h@.sessions =~= Map::<u64, SessionView>::empty());
        assert(h@.subscribers =~= Map::<u64, Set<u64>>::empty());
        h
    }

    /// The user a session belongs to.
    pub fn session_user(&self, session_id: u64) -> (r: Option<u64>)
        requires
            self.wf(),
        ensures
            r == (if self@.sessions.contains_key(session_id) {
                Some(self@.sessions[session_id].user_id)
            } else {
                None::<u64>
            }),
    {
        match self.sessions.find(&session_id) {
            Ok(i) => {
                proof {
                    lemma_rank_map_index(self.sessions@, i as int);
                }
                Some(self.sessions.value_at(i).user_id)
            },
            Err(i) => {
                proof {
                    crate::collections::lemma_fits_absent(self.sessions@, i as int, key_of(session_id));
                }
                None
            },
        }
    }
}


impl Session {
    /// A stand-in while a session is taken out to be changed: no user, no
    /// frames, no socket, no token.
    fn vacant() -> (e: Session)
        ensures
            e@ == (SessionView {
                user_id: 0,
                seq: 0,
                cap: 0,
                buffer: Seq::empty(),
                live: false,
                token: Seq::empty(),
                detached_at: None,
            }),
    {
        let e = Session {
            user_id: 0,
            seq: 0,
            cap: 0,
            buffer: Vec::new(),
            live: false,
            resume_token: String::new(),
            detached_at: None,
        };
        assert(e@.buffer =~= Seq::<FrameView>::empty());
        assert(e@.token =~= Seq::<char>::empty());
        e
    }
}

impl Hub {
    /// Takes the session at `i` out, leaving a stand-in.
    fn take_session(&mut self, i: usize) -> (e: Session)
        requires
            old(self).wf(),
            i < old(self).sessions@.len(),
        ensures
            e == old(self).sessions@[i as int].1,
            session_ok(e@),
            final(self).sessions.wf(),
            final(self).by_user == old(self).by_user,
            final(self).sessions@ == old(self).sessions@.update(i as int, (old(self).sessions@[i as int].0, final(self).sessions@[i as int].1)),
    {
        let e = self.sessions.replace_value_at(i, Session::vacant());
        e
    }

    /// Puts a changed session back at `i`.
    fn put_session(&mut self, i: usize, e: Session, Ghost(before): Ghost<Hub>)
        requires
            before.wf(),
            i < before.sessions@.len(),
            old(self).sessions.wf(),
            old(self).by_user == before.by_user,
            old(self).sessions@ == before.sessions@.update(i as int, (before.sessions@[i as int].0, old(self).sessions@[i as int].1)),
            session_ok(e@),
        ensures
            final(self).wf(),
            final(self).by_user == before.by_user,
            final(self)@ == (HubView {
                sessions: before@.sessions.insert(before.sessions@[i as int].0, e@),
                subscribers: before@.subscribers,
            }),
    {
        let ghost k = before.sessions@[i as int].0;
        self.sessions.set_value_at(i, e);
        proof {
            assert(self.sessions@ == before.sessions@.update(i as int, (k, e)));
            crate::collections::lemma_rank_map_update(before.sessions@, i as int, e);
            assert(self.sessions.map() == before.sessions.map().insert(k.rank(), e));
            lemma_sessions_view_insert(before.sessions.map(), k, e);
            assert forall|j: int| 0 <= j < self.sessions@.len() implies session_ok((#[trigger] self.sessions@[j]).1@) by {
                if j != i {
                    assert(self.sessions@[j] == before.sessions@[j]);
                }
            }
        }
    }

    /// The socket of a session goes away at `now_ms`; its buffer and numbering
    /// stay for a resume during the grace period.
    pub fn detach(&mut self, session_id: u64, now_ms: u64)
        requires
            old(self).wf(),
        ensures
            final(self).wf(),
            final(self)@ == view_detach(old(self)@, session_id, now_ms),
    {
        match self.sessions.find(&session_id) {
            Ok(i) => {
                let ghost before = *self;
                proof {
                    lemma_rank_map_index(self.sessions@, i as int);
                    lemma_key_of_injective(self.sessions@[i as int].0, session_id);
                }
                let mut e = self.take_session(i);
                e.live = false;
                e.detached_at = Some(now_ms);
                self.put_session(i, e, Ghost(before));
                assert(self@ == view_detach(before@, session_id, now_ms));
            },
            Err(i) => {
                proof {
                    crate::collections::lemma_fits_absent(self.sessions@, i as int, key_of(session_id));
                }
            },
        }
    }

    /// Drops a session's socket (it could not keep up), keeping the session.
    pub fn drop_live(&mut self, session_id: u64)
        requires
            old(self).wf(),
        ensures
            final(self).wf(),
            final(self)@ == view_drop_live(old(self)@, session_id),
    {
        match self.sessions.find(&session_id) {
            Ok(i) => {
                let ghost before = *self;
                proof {
                    lemma_rank_map_index(self.sessions@, i as int);
                    lemma_key_of_injective(self.sessions@[i as int].0, session_id);
                }
                let mut e = self.take_session(i);
                e.live = false;
                self.put_session(i, e, Ghost(before));
                assert(self@ == view_drop_live(before@, session_id));
            },
            Err(i) => {
                proof {
                    crate::collections::lemma_fits_absent(self.sessions@, i as int, key_of(session_id));
                }
            },
        }
    }
}


/// One more frame in a buffer of capacity `cap`, evicting the oldest when full.
fn buffer_push(buffer: &mut Vec<DispatchFrame>, cap: usize, f: DispatchFrame)
    requires
        0 < cap,
        old(buffer)@.len() <= cap,
    ensures
        final(buffer)@.map_values(|x: DispatchFrame| frame_view(x)) == push_frame(
            old(buffer)@.map_values(|x: DispatchFrame| frame_view(x)),
            cap,
            frame_view(f),
        ),
{
    let ghost b0 = old(buffer)@.map_values(|x: DispatchFrame| frame_view(x));
    if buffer.len() == cap {
        buffer.remove(0);
        assert(buffer@.map_values(|x: DispatchFrame| frame_view(x)) =~= b0.drop_first());
        buffer.push(f);
        assert(buffer@.map_values(|x: DispatchFrame| frame_view(x)) =~= b0.drop_first().push(frame_view(f)));
    } else {
        buffer.push(f);
        assert(buffer@.map_values(|x: DispatchFrame| frame_view(x)) =~= b0.push(frame_view(f)));
    }
}

/// An exact copy of a frame.
fn copy_frame(f: &DispatchFrame) -> (r: DispatchFrame)
    ensures
        r == *f,
{
    DispatchFrame { s: f.s, t: f.t.clone(), d: f.d.clone() }
}

proof fn lemma_bump_ok(e: SessionView, t: Seq<char>, d: Seq<char>)
    requires
        session_ok(e),
        e.seq < u64::MAX,
    ensures
        session_ok(bump(e, t, d)),
{
    let b = bump(e, t, d);
    if e.buffer.len() == e.cap {
        assert forall|i: int| 0 <= i < b.buffer.len() implies (#[trigger] b.buffer[i]).0 == b.seq - b.buffer.len() + 1 + i by {
            if i < b.buffer.len() - 1 {
                assert(b.buffer[i] == e.buffer[i + 1]);
            }
        }
    } else {
        assert forall|i: int| 0 <= i < b.buffer.len() implies (#[trigger] b.buffer[i]).0 == b.seq - b.buffer.len() + 1 + i by {
            if i < b.buffer.len() - 1 {
                assert(b.buffer[i] == e.buffer[i]);
            }
        }
    }
}

impl Hub {
    /// Makes a session a fan-out target of `user_id` (after its READY went).
    pub fn activate(&mut self, user_id: u64, session_id: u64)
        requires
            old(self).wf(),
        ensures
            final(self).wf(),
            final(self)@ == view_activate(old(self)@, user_id, session_id),
    {
        let ghost before = *self;
        match self.by_user.find(&user_id) {
            Ok(i) => {
                proof {
                    lemma_rank_map_index(self.by_user@, i as int);
                    lemma_key_of_injective(self.by_user@[i as int].0, user_id);
                }
                let mut set = self.by_user.replace_value_at(i, SortedMap::new());
                let ghost old_set = set;
                set.insert(session_id, ());
                proof {
                    lemma_id_set_insert(old_set, session_id);
                }
                self.by_user.set_value_at(i, set);
                proof {
                    assert(self.by_user.map() == before.by_user.map().insert(key_of(user_id), set));
                    lemma_subscribers_view_insert(before.by_user.map(), user_id, set);
                    assert forall|j: int| 0 <= j < self.by_user@.len() implies (#[trigger] self.by_user@[j]).1.wf() by {
                        if j != i {
                            assert(self.by_user@[j] == before.by_user@[j]);
                        }
                    }
                    assert(id_set(set) == id_set(old_set).insert(session_id));
                }
            },
            Err(i) => {
                proof {
                    crate::collections::lemma_fits_absent(self.by_user@, i as int, key_of(user_id));
                }
                let mut set = SortedMap::new();
                let ghost empty = set;
                set.insert(session_id, ());
                proof {
                    lemma_id_set_insert(empty, session_id);
                    assert(id_set(empty) =~= Set::<u64>::empty());
                }
                self.by_user.insert_at(i, user_id, set);
                proof {
                    lemma_subscribers_view_insert(before.by_user.map(), user_id, set);
                    assert forall|j: int| 0 <= j < self.by_user@.len() implies (#[trigger] self.by_user@[j]).1.wf() by {
                        if j < i {
                            assert(self.by_user@[j] == before.by_user@[j]);
                        } else if j > i {
                            assert(self.by_user@[j] == before.by_user@[j - 1]);
                        }
                    }
                }
            },
        }
        assert(self@.sessions == before@.sessions);
        assert(self@.subscribers =~= view_activate(before@, user_id, session_id).subscribers);
    }

    /// Dispatches one event to one session (a session-only event such as
    /// READY): the next sequence number, into the buffer. The frame is handed
    /// back when the session has a socket to push it to.
    pub fn dispatch_one(&mut self, session_id: u64, t: &str, d: String) -> (r: Option<DispatchFrame>)
        requires
            old(self).wf(),
            old(self)@.sessions.contains_key(session_id) ==> old(self)@.sessions[session_id].seq < u64::MAX,
        ensures
            final(self).wf(),
            final(self)@ == view_dispatch(old(self)@, session_id, t@, d@),
            r is Some <==> (old(self)@.sessions.contains_key(session_id) && old(self)@.sessions[session_id].live),
            r matches Some(f) ==> frame_view(f) == ((old(self)@.sessions[session_id].seq + 1) as u64, t@, d@),
    {
        match self.sessions.find(&session_id) {
            Ok(i) => {
                let ghost before = *self;
                proof {
                    lemma_rank_map_index(self.sessions@, i as int);
                    lemma_key_of_injective(self.sessions@[i as int].0, session_id);
                }
                let mut e = self.take_session(i);
                let ghost e0 = e@;
                e.seq = e.seq + 1;
                let frame = DispatchFrame { s: e.seq, t: t.to_owned(), d };
                let out = copy_frame(&frame);
                buffer_push(&mut e.buffer, e.cap, frame);
                proof {
                    assert(e@ == bump(e0, t@, d@));
                    lemma_bump_ok(e0, t@, d@);
                }
                let live = e.live;
                self.put_session(i, e, Ghost(before));
                if live {
                    Some(out)
                } else {
                    None
                }
            },
            Err(i) => {
                proof {
                    crate::collections::lemma_fits_absent(self.sessions@, i as int, key_of(session_id));
                }
                None
            },
        }
    }
}


/// A sorted id set is empty exactly when it has no entries.
proof fn lemma_id_set_empty(m: SortedMap<u64, ()>)
    requires
        m.wf(),
    ensures
        id_set(m).is_empty() <==> m@.len() == 0,
{
    if m@.len() > 0 {
        lemma_rank_map_index(m@, 0);
        assert(id_set(m).contains(m@[0].0));
    } else {
        lemma_rank_map_empty(m@);
        assert(id_set(m) =~= Set::<u64>::empty());
    }
}

impl Hub {
    fn drop_session(&mut self, session_id: u64)
        requires
            old(self).wf(),
        ensures
            final(self).wf(),
            final(self)@ == view_drop(old(self)@, session_id),
    {
        let ghost before = *self;
        match self.sessions.find(&session_id) {
            Ok(i) => {
                proof {
                    lemma_rank_map_index(self.sessions@, i as int);
                    lemma_key_of_injective(self.sessions@[i as int].0, session_id);
                }
                let (_, e) = self.sessions.remove_at(i);
                let u = e.user_id;
                proof {
                    lemma_sessions_view_remove(before.sessions.map(), session_id);
                    assert forall|j: int| 0 <= j < self.sessions@.len() implies session_ok((#[trigger] self.sessions@[j]).1@) by {
                        if j < i {
                            assert(self.sessions@[j] == before.sessions@[j]);
                        } else {
                            assert(self.sessions@[j] == before.sessions@[j + 1]);
                        }
                    }
                    assert(self@.sessions == before@.sessions.remove(session_id));
                    assert(before@.sessions[session_id].user_id == u);
                }
                let ghost mid = *self;
                match self.by_user.find(&u) {
                    Ok(j) => {
                        proof {
                            lemma_rank_map_index(self.by_user@, j as int);
                            lemma_key_of_injective(self.by_user@[j as int].0, u);
                        }
                        let mut set = self.by_user.replace_value_at(j, SortedMap::new());
                        let ghost old_set = set;
                        assert(before@.subscribers.contains_key(u) && before@.subscribers[u] == id_set(old_set));
                        match set.find(&session_id) {
                            Ok(x) => {
                                proof {
                                    lemma_rank_map_index(set@, x as int);
                                    lemma_key_of_injective(set@[x as int].0, session_id);
                                }
                                set.remove_at(x);
                                proof {
                                    lemma_id_set_remove(old_set, session_id);
                                }
                            },
                            Err(x) => {
                                proof {
                                    crate::collections::lemma_fits_absent(set@, x as int, key_of(session_id));
                                    assert(id_set(set) =~= id_set(old_set).remove(session_id));
                                }
                            },
                        }
                        proof {
                            lemma_id_set_empty(set);
                        }
                        if set.len() == 0 {
                            self.by_user.remove_at(j);
                            proof {
                                lemma_subscribers_view_remove(mid.by_user.map(), u);
                                assert forall|k: int| 0 <= k < self.by_user@.len() implies (#[trigger] self.by_user@[k]).1.wf() by {
                                    if k < j {
                                        assert(self.by_user@[k] == mid.by_user@[k]);
                                    } else {
                                        assert(self.by_user@[k] == mid.by_user@[k + 1]);
                                    }
                                }
                                assert(self@.subscribers == view_drop(before@, session_id).subscribers);
                                assert(self@.sessions == view_drop(before@, session_id).sessions);
                            }
                        } else {
                            self.by_user.set_value_at(j, set);
                            proof {
                                assert(self.by_user.map() == mid.by_user.map().insert(key_of(u), set));
                                lemma_subscribers_view_insert(mid.by_user.map(), u, set);
                                assert forall|k: int| 0 <= k < self.by_user@.len() implies (#[trigger] self.by_user@[k]).1.wf() by {
                                    if k != j {
                                        assert(self.by_user@[k] == mid.by_user@[k]);
                                    }
                                }
                                assert(self@.subscribers == view_drop(before@, session_id).subscribers);
                                assert(self@.sessions == view_drop(before@, session_id).sessions);
                            }
                        }
                    },
                    Err(j) => {
                        proof {
                            crate::collections::lemma_fits_absent(self.by_user@, j as int, key_of(u));
                            assert(!before@.subscribers.contains_key(u));
                            assert(self@.subscribers == view_drop(before@, session_id).subscribers);
                        }
                    },
                }
            },
            Err(i) => {
                proof {
                    crate::collections::lemma_fits_absent(self.sessions@, i as int, key_of(session_id));
                }
            },
        }
    }

    /// Removes a session for good (its buffer and fan-out entry go too).
    pub fn remove(&mut self, session_id: u64)
        requires
            old(self).wf(),
        ensures
            final(self).wf(),
            final(self)@ == view_drop(old(self)@, session_id),
    {
        self.drop_session(session_id);
    }
}


/// Some of the first `i` sessions of `h` has id `x`.
spec fn key_listed(h: Hub, i: int, x: u64) -> bool {
    exists|k: int| 0 <= k < i && #[trigger] h.sessions@[k].0 == x
}

/// A detached session whose grace period is over at `now`.
pub open spec fn expired(e: SessionView, now: u64) -> bool {
    e.detached_at matches Some(t) && now > t && now - t > DETACHED_GRACE_MS
}

/// Drops the sessions `ids`, in order.
pub open spec fn view_drop_all(v: HubView, ids: Seq<u64>) -> HubView
    decreases ids.len(),
{
    if ids.len() == 0 {
        v
    } else {
        view_drop(view_drop_all(v, ids.drop_last()), ids.last())
    }
}

/// `ids` lists each expired session of `v` once, in some order.
pub open spec fn expired_ids(v: HubView, now: u64, ids: Seq<u64>) -> bool {
    &&& ids.no_duplicates()
    &&& forall|s: u64| #[trigger] ids.contains(s) <==> (v.sessions.contains_key(s) && expired(v.sessions[s], now))
}

/// A new session: no frames yet, a socket attached.
pub open spec fn view_attach(v: HubView, user: u64, sid: u64, cap: usize, token: Seq<char>) -> HubView {
    HubView {
        sessions: v.sessions.insert(
            sid,
            SessionView { user_id: user, seq: 0, cap, buffer: Seq::empty(), live: true, token, detached_at: None },
        ),
        ..v
    }
}

/// The resume may go on: the token matches and every frame after `last_seq`
/// is still buffered.
pub open spec fn resume_ok(e: SessionView, token: Seq<char>, last_seq: u64) -> bool {
    &&& e.token == token
    &&& last_seq <= e.seq
    &&& (e.buffer.len() > 0 ==> last_seq + 1 >= e.seq - e.buffer.len() + 1)
    &&& (e.buffer.len() == 0 ==> last_seq == e.seq)
}

/// The buffered frames numbered after `last_seq`, in order.
pub open spec fn frames_after(buffer: Seq<FrameView>, last_seq: u64) -> Seq<FrameView>
    decreases buffer.len(),
{
    if buffer.len() == 0 {
        Seq::empty()
    } else {
        let rest = frames_after(buffer.drop_last(), last_seq);
        if buffer.last().0 > last_seq {
            rest.push(buffer.last())
        } else {
            rest
        }
    }
}

/// A resumed session has its socket back.
pub open spec fn view_reattach(v: HubView, sid: u64) -> HubView {
    HubView {
        sessions: v.sessions.insert(sid, SessionView { live: true, detached_at: None, ..v.sessions[sid] }),
        ..v
    }
}

/// The outcome of a resume.
pub enum ResumeOutcome {
    /// Resumed: the missed frames to replay, and the session's last number.
    Resumed { replay: Vec<DispatchFrame>, last_seq: u64 },
    /// Not resumable (unknown session, wrong token, or a missed frame was
    /// evicted): the client must identify again.
    Invalid,
}

impl Hub {
    fn purge_expired(&mut self, now_ms: u64)
        requires
            old(self).wf(),
        ensures
            final(self).wf(),
            exists|ids: Seq<u64>| expired_ids(old(self)@, now_ms, ids) && final(self)@ == view_drop_all(old(self)@, ids),
    {
        let ghost start = *self;
        let mut ids: Vec<u64> = Vec::new();
        let n = self.sessions.len();
        let mut i: usize = 0;
        while i < n
            invariant
                *self == start,
                start.wf(),
                n == start.sessions@.len(),
                i <= n,
                forall|a: int, b: int| 0 <= a < b < ids@.len() ==> #[trigger] ids@[a] < #[trigger] ids@[b],
                forall|a: int| 0 <= a < ids@.len() ==> key_listed(start, i as int, #[trigger] ids@[a]),
                forall|s: u64| #[trigger] ids@.contains(s) <==> (exists|k: int|
                    0 <= k < i && start.sessions@[k].0 == s && expired(#[trigger] start.sessions@[k].1@, now_ms)),
            decreases n - i,
        {
            let e = self.sessions.value_at(i);
            let expired_now = match e.detached_at {
                Some(t) => now_ms > t && now_ms - t > DETACHED_GRACE_MS,
                None => false,
            };
            let ghost ids0 = ids@;
            assert(expired_now == expired(start.sessions@[i as int].1@, now_ms));
            if expired_now {
                let k = *self.sessions.key_at(i);
                proof {
                    assert forall|a: int| 0 <= a < ids@.len() implies ids@[a] < k by {
                        assert(key_listed(start, i as int, ids@[a]));
                        let kk = choose|kk: int| 0 <= kk < i && #[trigger] start.sessions@[kk].0 == ids@[a];
                        assert(lex_lt(start.sessions@[kk].0.rank(), start.sessions@[i as int].0.rank()));
                        crate::collections::lemma_key_of_order(ids@[a], k);
                    }
                }
                ids.push(k);
            }
            proof {
                assert(expired_now ==> ids@ == ids0.push(start.sessions@[i as int].0));
                assert(!expired_now ==> ids@ == ids0);
                assert forall|a: int| 0 <= a < ids@.len() implies key_listed(start, i + 1, #[trigger] ids@[a]) by {
                    if a < ids0.len() {
                        assert(ids@[a] == ids0[a]);
                        assert(key_listed(start, i as int, ids0[a]));
                        let kk = choose|kk: int| 0 <= kk < i && #[trigger] start.sessions@[kk].0 == ids0[a];
                        assert(0 <= kk < i + 1 && start.sessions@[kk].0 == ids@[a]);
                    } else {
                        assert(0 <= i < i + 1 && start.sessions@[i as int].0 == ids@[a]);
                    }
                }
                assert forall|s: u64| #[trigger] ids@.contains(s) <==> (exists|kk: int|
                    0 <= kk < i + 1 && start.sessions@[kk].0 == s && expired(#[trigger] start.sessions@[kk].1@, now_ms)) by {
                    if ids@.contains(s) {
                        if expired_now && s == start.sessions@[i as int].0 {
                        } else {
                            assert(ids0.contains(s)) by {
                                let x = choose|x: int| 0 <= x < ids@.len() && ids@[x] == s;
                                if x < ids0.len() {
                                    assert(ids0[x] == s);
                                }
                            }
                        }
                    }
                    if exists|kk: int| 0 <= kk < i + 1 && start.sessions@[kk].0 == s && expired(#[trigger] start.sessions@[kk].1@, now_ms) {
                        let kk = choose|kk: int| 0 <= kk < i + 1 && start.sessions@[kk].0 == s && expired(#[trigger] start.sessions@[kk].1@, now_ms);
                        if kk == i {
                            assert(ids@[ids@.len() - 1] == s);
                        } else {
                            assert(ids0.contains(s));
                            let x = choose|x: int| 0 <= x < ids0.len() && ids0[x] == s;
                            assert(ids@[x] == s);
                        }
                    }
                }
            }
            i = i + 1;
        }
        proof {
            assert(ids@.no_duplicates());
            assert forall|s: u64| #[trigger] ids@.contains(s) <==> (start@.sessions.contains_key(s) && expired(start@.sessions[s], now_ms)) by {
                if start@.sessions.contains_key(s) {
                    let k = choose|k: int| 0 <= k < start.sessions@.len() && #[trigger] start.sessions@[k].0.rank() == key_of(s);
                    lemma_rank_map_index(start.sessions@, k);
                    lemma_key_of_injective(start.sessions@[k].0, s);
                }
                if ids@.contains(s) {
                    let k = choose|k: int| 0 <= k < n && start.sessions@[k].0 == s && expired(#[trigger] start.sessions@[k].1@, now_ms);
                    lemma_rank_map_index(start.sessions@, k);
                }
            }
        }
        let m = ids.len();
        let mut j: usize = 0;
        while j < m
            invariant
                self.wf(),
                m == ids@.len(),
                j <= m,
                self@ == view_drop_all(start@, ids@.take(j as int)),
            decreases m - j,
        {
            proof {
                assert(ids@.take(j + 1).drop_last() =~= ids@.take(j as int));
            }
            self.drop_session(ids[j]);
            j = j + 1;
        }
        assert(ids@.take(m as int) =~= ids@);
    }

    /// Registers a new session with a fresh resume token (32 random bytes as
    /// hex), after purging expired sessions. It is not a fan-out target
    /// until `activate`, so that its READY goes first.
    pub fn attach(&mut self, user_id: u64, session_id: u64, cap: usize, now_ms: u64) -> (token: String)
        requires
            old(self).wf(),
            0 < cap,
        ensures
            final(self).wf(),
            exists|ids: Seq<u64>|
                expired_ids(old(self)@, now_ms, ids) && final(self)@ == view_attach(
                    view_drop_all(old(self)@, ids),
                    user_id,
                    session_id,
                    cap,
                    token@,
                ),
            exists|b: Seq<u8>| b.len() == 32 && token@ == ascii_chars(#[trigger] hex_encode(b)),
    {
        self.purge_expired(now_ms);
        let ghost purged = *self;
        let token = encode_hex(random_bytes(32).as_slice());
        let e = Session {
            user_id,
            seq: 0,
            cap,
            buffer: Vec::new(),
            live: true,
            resume_token: token.clone(),
            detached_at: None,
        };
        proof {
            assert(e@.buffer =~= Seq::<FrameView>::empty());
        }
        match self.sessions.find(&session_id) {
            Ok(i) => {
                proof {
                    lemma_rank_map_index(self.sessions@, i as int);
                    lemma_key_of_injective(self.sessions@[i as int].0, session_id);
                }
                let _ = self.take_session(i);
                self.put_session(i, e, Ghost(purged));
            },
            Err(i) => {
                proof {
                    crate::collections::lemma_fits_absent(self.sessions@, i as int, key_of(session_id));
                }
                self.sessions.insert_at(i, session_id, e);
                proof {
                    lemma_sessions_view_insert(purged.sessions.map(), session_id, e);
                    assert forall|j: int| 0 <= j < self.sessions@.len() implies session_ok((#[trigger] self.sessions@[j]).1@) by {
                        if j < i {
                            assert(self.sessions@[j] == purged.sessions@[j]);
                        } else if j > i {
                            assert(self.sessions@[j] == purged.sessions@[j - 1]);
                        }
                    }
                }
            },
        }
        assert(self@.sessions == view_attach(purged@, user_id, session_id, cap, token@).sessions);
        token
    }
}


/// The purge before an attach or a resume removes exactly the detached
/// sessions whose grace has passed; every other session stays as it was.
pub proof fn lemma_purge_exact(v: HubView, now: u64, ids: Seq<u64>, s: u64)
    requires
        expired_ids(v, now, ids),
    ensures
        view_drop_all(v, ids).sessions.contains_key(s) <==> (v.sessions.contains_key(s) && !expired(
            v.sessions[s],
            now,
        )),
        view_drop_all(v, ids).sessions.contains_key(s) ==> view_drop_all(v, ids).sessions[s] == v.sessions[s],
{
    lemma_drop_all_sessions(v, ids, s);
    assert(ids.contains(s) <==> (v.sessions.contains_key(s) && expired(v.sessions[s], now)));
}

/// What dropping sessions leaves: the sessions not dropped, unchanged.
proof fn lemma_drop_all_sessions(v: HubView, ids: Seq<u64>, s: u64)
    ensures
        view_drop_all(v, ids).sessions.contains_key(s) <==> (v.sessions.contains_key(s) && !ids.contains(s)),
        view_drop_all(v, ids).sessions.contains_key(s) ==> view_drop_all(v, ids).sessions[s] == v.sessions[s],
    decreases ids.len(),
{
    if ids.len() > 0 {
        lemma_drop_all_sessions(v, ids.drop_last(), s);
        assert(ids.contains(s) <==> (ids.drop_last().contains(s) || ids.last() == s)) by {
            if ids.contains(s) {
                let k = choose|k: int| 0 <= k < ids.len() && ids[k] == s;
                if k < ids.len() - 1 {
                    assert(ids.drop_last()[k] == s);
                }
            }
            if ids.drop_last().contains(s) {
                let k = choose|k: int| 0 <= k < ids.drop_last().len() && ids.drop_last()[k] == s;
                assert(ids[k] == s);
            }
        }
    }
}

/// Resuming cannot overflow: a session that survives the purge and passes
/// the token and number checks with buffered frames is not asked for the
/// frame after the largest number.
pub open spec fn resume_safe(v: HubView, sid: u64, token: Seq<char>, last_seq: u64, now: u64) -> bool {
    v.sessions.contains_key(sid) && !expired(v.sessions[sid], now) && v.sessions[sid].token == token
        && last_seq <= v.sessions[sid].seq && v.sessions[sid].buffer.len() > 0 ==> last_seq < u64::MAX
}

impl Hub {
    /// Resumes a session: checks the token and that no missed frame was
    /// evicted, gives the socket back and hands out the missed frames (with
    /// their original numbers). Expired sessions are purged first.
    pub fn resume(&mut self, session_id: u64, token: &str, last_seq: u64, now_ms: u64) -> (r: ResumeOutcome)
        requires
            old(self).wf(),
            resume_safe(old(self)@, session_id, token@, last_seq, now_ms),
        ensures
            final(self).wf(),
            exists|ids: Seq<u64>|
                expired_ids(old(self)@, now_ms, ids) && ({
                    let p = view_drop_all(old(self)@, ids);
                    if p.sessions.contains_key(session_id) && resume_ok(p.sessions[session_id], token@, last_seq) {
                        &&& r matches ResumeOutcome::Resumed { replay, last_seq: l } && l == p.sessions[session_id].seq
                            && replay@.map_values(|f: DispatchFrame| frame_view(f)) == frames_after(
                            p.sessions[session_id].buffer,
                            last_seq,
                        )
                        &&& final(self)@ == view_reattach(p, session_id)
                    } else {
                        &&& r is Invalid
                        &&& final(self)@ == p
                    }
                }),
    {
        self.purge_expired(now_ms);
        let ghost p = *self;
        let ghost ids = choose|ids: Seq<u64>| expired_ids(old(self)@, now_ms, ids) && p@ == view_drop_all(old(self)@, ids);
        proof {
            lemma_drop_all_sessions(old(self)@, ids, session_id);
        }
        let i = match self.sessions.find(&session_id) {
            Ok(i) => i,
            Err(i) => {
                proof {
                    crate::collections::lemma_fits_absent(self.sessions@, i as int, key_of(session_id));
                }
                return ResumeOutcome::Invalid;
            },
        };
        proof {
            lemma_rank_map_index(self.sessions@, i as int);
            lemma_key_of_injective(self.sessions@[i as int].0, session_id);
            assert(session_ok(self.sessions@[i as int].1@));
        }
        let e = self.sessions.value_at(i);
        let ghost ev = e@;
        assert(ev == p@.sessions[session_id]);
        if !crate::text::str_eq(e.resume_token.as_str(), token) {
            return ResumeOutcome::Invalid;
        }
        if last_seq > e.seq {
            return ResumeOutcome::Invalid;
        }
        let len = e.buffer.len() as u64;
        let earliest = e.seq - len + 1;
        if len > 0 && last_seq + 1 < earliest {
            return ResumeOutcome::Invalid;
        }
        if len == 0 && last_seq != e.seq {
            return ResumeOutcome::Invalid;
        }
        let mut replay: Vec<DispatchFrame> = Vec::new();
        let mut j: usize = 0;
        while j < e.buffer.len()
            invariant
                j <= e.buffer@.len(),
                ev == e@,
                replay@.map_values(|f: DispatchFrame| frame_view(f)) == frames_after(
                    e.buffer@.take(j as int).map_values(|f: DispatchFrame| frame_view(f)),
                    last_seq,
                ),
            decreases e.buffer@.len() - j,
        {
            let ghost pre = e.buffer@.take(j as int).map_values(|f: DispatchFrame| frame_view(f));
            let ghost cur = e.buffer@.take(j + 1).map_values(|f: DispatchFrame| frame_view(f));
            proof {
                assert(cur.drop_last() =~= pre);
                assert(cur.last() == frame_view(e.buffer@[j as int]));
            }
            if e.buffer[j].s > last_seq {
                replay.push(copy_frame(&e.buffer[j]));
            }
            assert(replay@.map_values(|f: DispatchFrame| frame_view(f)) =~= frames_after(cur, last_seq));
            j = j + 1;
        }
        proof {
            assert(e.buffer@.take(e.buffer@.len() as int) =~= e.buffer@);
        }
        let seq = e.seq;
        let mut s = self.take_session(i);
        s.live = true;
        s.detached_at = None;
        self.put_session(i, s, Ghost(p));
        proof {
            assert(self@.sessions == view_reattach(p@, session_id).sessions);
        }
        ResumeOutcome::Resumed { replay, last_seq: seq }
    }
}


/// Every target, in turn, gets one more frame.
pub open spec fn view_deliver(v: HubView, targets: Seq<u64>, t: Seq<char>, d: Seq<char>) -> HubView
    decreases targets.len(),
{
    if targets.len() == 0 {
        v
    } else {
        view_dispatch(view_deliver(v, targets.drop_last(), t, d), targets.last(), t, d)
    }
}

/// No target's number would pass the largest `u64` during the delivery.
pub open spec fn deliver_fits(v: HubView, targets: Seq<u64>, t: Seq<char>, d: Seq<char>) -> bool {
    forall|j: int|
        #![trigger targets[j]]
        0 <= j < targets.len() ==> {
            let w = view_deliver(v, targets.take(j), t, d);
            w.sessions.contains_key(targets[j]) ==> w.sessions[targets[j]].seq < u64::MAX
        }
}

/// The frames a delivery hands out to push, with their sessions: one per
/// target whose session has a socket.
pub open spec fn deliver_frames(v: HubView, targets: Seq<u64>, t: Seq<char>, d: Seq<char>) -> Seq<(u64, FrameView)>
    decreases targets.len(),
{
    if targets.len() == 0 {
        Seq::empty()
    } else {
        let rest = deliver_frames(v, targets.drop_last(), t, d);
        let w = view_deliver(v, targets.drop_last(), t, d);
        let sid = targets.last();
        if w.sessions.contains_key(sid) && w.sessions[sid].live {
            rest.push((sid, ((w.sessions[sid].seq + 1) as u64, t, d)))
        } else {
            rest
        }
    }
}

/// The fan-out set of a user as a sorted list.
spec fn user_targets(h: Hub, u: u64) -> Seq<u64> {
    if h.by_user.map().contains_key(key_of(u)) {
        h.by_user.map()[key_of(u)]@.map_values(|p: (u64, ())| p.0)
    } else {
        Seq::empty()
    }
}

impl Hub {
    /// The sessions a delivery to `users` reaches, in order: each user's
    /// fan-out set in turn (a session is reached once per listing).
    pub closed spec fn targets(&self, users: Seq<u64>) -> Seq<u64>
        decreases users.len(),
    {
        if users.len() == 0 {
            Seq::empty()
        } else {
            self.targets(users.drop_last()) + user_targets(*self, users.last())
        }
    }

    /// A session is among the targets exactly when one of the users has it
    /// in their fan-out set.
    pub proof fn lemma_targets(&self, users: Seq<u64>, s: u64)
        requires
            self.wf(),
        ensures
            self.targets(users).contains(s) <==> exists|i: int|
                0 <= i < users.len() && self@.subscribers.contains_key(#[trigger] users[i])
                    && self@.subscribers[users[i]].contains(s),
        decreases users.len(),
    {
        if users.len() > 0 {
            let u = users.last();
            self.lemma_targets(users.drop_last(), s);
            let a = self.targets(users.drop_last());
            let b = user_targets(*self, u);
            assert(self.targets(users) == a + b);
            assert((a + b).contains(s) <==> (a.contains(s) || b.contains(s))) by {
                if (a + b).contains(s) {
                    let k = choose|k: int| 0 <= k < (a + b).len() && (a + b)[k] == s;
                    if k < a.len() {
                        assert(a[k] == s);
                    } else {
                        assert(b[k - a.len()] == s);
                    }
                }
                if a.contains(s) {
                    let k = choose|k: int| 0 <= k < a.len() && a[k] == s;
                    assert((a + b)[k] == s);
                }
                if b.contains(s) {
                    let k = choose|k: int| 0 <= k < b.len() && b[k] == s;
                    assert((a + b)[k + a.len()] == s);
                }
            }
            if self.by_user.map().contains_key(key_of(u)) {
                let j = choose|j: int| 0 <= j < self.by_user@.len() && #[trigger] self.by_user@[j].0.rank() == key_of(u);
                lemma_rank_map_index(self.by_user@, j);
                let set = self.by_user.map()[key_of(u)];
                assert(set.wf());
                assert(b.contains(s) <==> id_set(set).contains(s)) by {
                    if b.contains(s) {
                        let k = choose|k: int| 0 <= k < b.len() && b[k] == s;
                        lemma_rank_map_index(set@, k);
                    }
                    if id_set(set).contains(s) {
                        let k = choose|k: int| 0 <= k < set@.len() && #[trigger] set@[k].0.rank() == key_of(s);
                        lemma_key_of_injective(set@[k].0, s);
                        assert(b[k] == s);
                    }
                }
            }
            if exists|i: int|
                0 <= i < users.len() && self@.subscribers.contains_key(#[trigger] users[i])
                    && self@.subscribers[users[i]].contains(s) {
                let i = choose|i: int|
                    0 <= i < users.len() && self@.subscribers.contains_key(#[trigger] users[i])
                        && self@.subscribers[users[i]].contains(s);
                if i < users.len() - 1 {
                    assert(users.drop_last()[i] == users[i]);
                }
            }
            if exists|i: int|
                0 <= i < users.len() - 1 && self@.subscribers.contains_key(#[trigger] users.drop_last()[i])
                    && self@.subscribers[users.drop_last()[i]].contains(s) {
                let i = choose|i: int|
                    0 <= i < users.len() - 1 && self@.subscribers.contains_key(#[trigger] users.drop_last()[i])
                        && self@.subscribers[users.drop_last()[i]].contains(s);
                assert(users[i] == users.drop_last()[i]);
            }
        }
    }

    fn collect_targets(&self, user_ids: &[u64]) -> (ids: Vec<u64>)
        requires
            self.wf(),
        ensures
            ids@ == self.targets(user_ids@),
    {
        let mut ids: Vec<u64> = Vec::new();
        let mut k: usize = 0;
        while k < user_ids.len()
            invariant
                self.wf(),
                k <= user_ids@.len(),
                ids@ == self.targets(user_ids@.take(k as int)),
            decreases user_ids@.len() - k,
        {
            let u = user_ids[k];
            let ghost before = ids@;
            proof {
                assert(user_ids@.take(k + 1).drop_last() =~= user_ids@.take(k as int));
                assert(user_ids@.take(k + 1).last() == u);
            }
            match self.by_user.find(&u) {
                Ok(i) => {
                    proof {
                        lemma_rank_map_index(self.by_user@, i as int);
                        lemma_key_of_injective(self.by_user@[i as int].0, u);
                    }
                    let set = self.by_user.value_at(i);
                    let n = set.len();
                    let mut x: usize = 0;
                    while x < n
                        invariant
                            n == set@.len(),
                            x <= n,
                            ids@ == before + set@.take(x as int).map_values(|p: (u64, ())| p.0),
                        decreases n - x,
                    {
                        ids.push(*set.key_at(x));
                        assert(ids@ =~= before + set@.take(x + 1).map_values(|p: (u64, ())| p.0));
                        x = x + 1;
                    }
                    assert(set@.take(n as int) =~= set@);
                    assert(ids@ =~= self.targets(user_ids@.take(k + 1)));
                },
                Err(i) => {
                    proof {
                        crate::collections::lemma_fits_absent(self.by_user@, i as int, key_of(u));
                    }
                    assert(ids@ =~= self.targets(user_ids@.take(k + 1)));
                },
            }
            k = k + 1;
        }
        assert(user_ids@.take(user_ids@.len() as int) =~= user_ids@);
        ids
    }

    /// Delivers an event to every session of the users: each gets its next
    /// number and a buffered frame. Hands back the frames to push to live
    /// sockets; a socket that cannot take one is dropped by the caller with
    /// `drop_live`, and the client resumes from the buffer.
    pub fn deliver(&mut self, user_ids: &[u64], event: &ServerEvent) -> (r: Vec<(u64, DispatchFrame)>)
        requires
            old(self).wf(),
            deliver_fits(old(self)@, old(self).targets(user_ids@), event.t@, event.d@),
        ensures
            final(self).wf(),
            final(self)@ == view_deliver(old(self)@, old(self).targets(user_ids@), event.t@, event.d@),
            r@.map_values(|p: (u64, DispatchFrame)| (p.0, frame_view(p.1))) == deliver_frames(
                old(self)@,
                old(self).targets(user_ids@),
                event.t@,
                event.d@,
            ),
    {
        let ghost start = *self;
        let ids = self.collect_targets(user_ids);
        let mut out: Vec<(u64, DispatchFrame)> = Vec::new();
        let mut j: usize = 0;
        while j < ids.len()
            invariant
                self.wf(),
                j <= ids@.len(),
                ids@ == start.targets(user_ids@),
                deliver_fits(start@, ids@, event.t@, event.d@),
                self@ == view_deliver(start@, ids@.take(j as int), event.t@, event.d@),
                out@.map_values(|p: (u64, DispatchFrame)| (p.0, frame_view(p.1))) == deliver_frames(
                    start@,
                    ids@.take(j as int),
                    event.t@,
                    event.d@,
                ),
            decreases ids@.len() - j,
        {
            let sid = ids[j];
            proof {
                assert(ids@.take(j + 1).drop_last() =~= ids@.take(j as int));
                assert(ids@.take(j + 1).last() == sid);
                assert(ids@[j as int] == sid);
            }
            let f = self.dispatch_one(sid, event.t.as_str(), event.d.clone());
            match f {
                Some(frame) => {
                    out.push((sid, frame));
                },
                None => {},
            }
            assert(out@.map_values(|p: (u64, DispatchFrame)| (p.0, frame_view(p.1))) =~= deliver_frames(
                start@,
                ids@.take(j + 1),
                event.t@,
                event.d@,
            ));
            j = j + 1;
        }
        assert(ids@.take(ids@.len() as int) =~= ids@);
        out
    }
}


/// One of the first `x` ids of a sorted id set is `v`.
spec fn set_prefix_has(set: SortedMap<u64, ()>, x: int, v: u64) -> bool {
    exists|k: int| 0 <= k < x && #[trigger] set@[k].0 == v
}

/// The sessions of a set that exist and have a socket.
pub open spec fn live_sessions(v: HubView, set: Set<u64>) -> Set<u64> {
    set.filter(|s: u64| v.sessions.contains_key(s) && v.sessions[s].live)
}

impl Hub {
    /// Whether a session exists and has a socket.
    fn is_live(&self, session_id: u64) -> (r: bool)
        requires
            self.wf(),
        ensures
            r == (self@.sessions.contains_key(session_id) && self@.sessions[session_id].live),
    {
        match self.sessions.find(&session_id) {
            Ok(i) => {
                proof {
                    lemma_rank_map_index(self.sessions@, i as int);
                    lemma_key_of_injective(self.sessions@[i as int].0, session_id);
                }
                self.sessions.value_at(i).live
            },
            Err(i) => {
                proof {
                    crate::collections::lemma_fits_absent(self.sessions@, i as int, key_of(session_id));
                }
                false
            },
        }
    }

    /// How many of the user's fan-out sessions have a socket (detached ones,
    /// which only buffer, are not counted): presence goes offline at zero.
    pub fn live_count(&self, user_id: u64) -> (n: usize)
        requires
            self.wf(),
        ensures
            n == (if self@.subscribers.contains_key(user_id) {
                live_sessions(self@, self@.subscribers[user_id]).len()
            } else {
                0
            }),
    {
        match self.by_user.find(&user_id) {
            Ok(i) => {
                proof {
                    lemma_rank_map_index(self.by_user@, i as int);
                    lemma_key_of_injective(self.by_user@[i as int].0, user_id);
                }
                let set = self.by_user.value_at(i);
                let ghost full = id_set(*set);
                let ghost target = live_sessions(self@, full);
                let mut count: usize = 0;
                let ghost mut counted: Seq<u64> = Seq::empty();
                let len = set.len();
                let mut x: usize = 0;
                while x < len
                    invariant
                        self.wf(),
                        set.wf(),
                        len == set@.len(),
                        x <= len,
                        count == counted.len(),
                        count <= x,
                        counted.no_duplicates(),
                        forall|a: int| 0 <= a < counted.len() ==> set_prefix_has(*set, x as int, #[trigger] counted[a]),
                        forall|s: u64| #[trigger] counted.contains(s) <==> (set_prefix_has(*set, x as int, s)
                            && self@.sessions.contains_key(s) && self@.sessions[s].live),
                    decreases len - x,
                {
                    let sid = *set.key_at(x);
                    let ghost c0 = counted;
                    let live = self.is_live(sid);
                    if live {
                        proof {
                            assert forall|a: int| 0 <= a < counted.len() implies counted[a] != sid by {
                                assert(set_prefix_has(*set, x as int, counted[a]));
                                let k = choose|k: int| 0 <= k < x && #[trigger] set@[k].0 == counted[a];
                                assert(lex_lt(set@[k].0.rank(), set@[x as int].0.rank()));
                                crate::collections::lemma_key_of_order(counted[a], sid);
                            }
                            counted = counted.push(sid);
                        }
                        count = count + 1;
                    }
                    proof {
                        assert forall|a: int| 0 <= a < counted.len() implies set_prefix_has(*set, x + 1, #[trigger] counted[a]) by {
                            if a < c0.len() {
                                assert(counted[a] == c0[a]);
                                assert(set_prefix_has(*set, x as int, c0[a]));
                                let k = choose|k: int| 0 <= k < x && #[trigger] set@[k].0 == c0[a];
                                assert(set@[k].0 == counted[a]);
                            } else {
                                assert(set@[x as int].0 == counted[a]);
                            }
                        }
                        assert forall|s: u64| #[trigger] counted.contains(s) <==> (set_prefix_has(*set, x + 1, s)
                            && self@.sessions.contains_key(s) && self@.sessions[s].live) by {
                            if counted.contains(s) {
                                let a = choose|a: int| 0 <= a < counted.len() && counted[a] == s;
                                if a < c0.len() {
                                    assert(c0[a] == s);
                                    assert(c0.contains(s));
                                    let k = choose|k: int| 0 <= k < x && #[trigger] set@[k].0 == s;
                                    assert(set@[k].0 == s);
                                } else {
                                    assert(set@[x as int].0 == s);
                                }
                            }
                            if set_prefix_has(*set, x + 1, s) && self@.sessions.contains_key(s) && self@.sessions[s].live {
                                let k = choose|k: int| 0 <= k < x + 1 && #[trigger] set@[k].0 == s;
                                if k == x {
                                    assert(counted[counted.len() - 1] == s);
                                } else {
                                    assert(set_prefix_has(*set, x as int, s));
                                    assert(c0.contains(s));
                                    let a = choose|a: int| 0 <= a < c0.len() && c0[a] == s;
                                    assert(counted[a] == s);
                                }
                            }
                        }
                    }
                    x = x + 1;
                }
                proof {
                    assert forall|s: u64| #[trigger] counted.contains(s) <==> target.contains(s) by {
                        if target.contains(s) {
                            assert(full.contains(s));
                            let k = choose|k: int| 0 <= k < set@.len() && #[trigger] set@[k].0.rank() == key_of(s);
                            lemma_key_of_injective(set@[k].0, s);
                            assert(set@[k].0 == s);
                            assert(set_prefix_has(*set, x as int, s));
                        }
                        if counted.contains(s) {
                            let k = choose|k: int| 0 <= k < x && #[trigger] set@[k].0 == s;
                            lemma_rank_map_index(set@, k);
                        }
                    }
                    assert(counted.to_set() =~= target);
                    counted.unique_seq_to_set();
                }
                count
            },
            Err(i) => {
                proof {
                    crate::collections::lemma_fits_absent(self.by_user@, i as int, key_of(user_id));
                }
                0
            },
        }
    }
}


/// A session may be resumed from `last_seq` exactly when the token matches
/// and `last_seq` lies between the number before its oldest buffered frame
/// and its last number.
pub proof fn lemma_resume_window(e: SessionView, token: Seq<char>, last_seq: u64)
    requires
        session_ok(e),
    ensures
        resume_ok(e, token, last_seq) <==> (e.token == token && e.seq - e.buffer.len() <= last_seq <= e.seq),
{
}

/// A resume replays, in order, exactly the frames numbered `last_seq + 1`
/// up to the session's last number: nothing missed, nothing twice.
pub proof fn lemma_replay_complete(e: SessionView, token: Seq<char>, last_seq: u64)
    requires
        session_ok(e),
        resume_ok(e, token, last_seq),
    ensures
        frames_after(e.buffer, last_seq).len() == e.seq - last_seq,
        forall|i: int|
            0 <= i < frames_after(e.buffer, last_seq).len() ==> (#[trigger] frames_after(e.buffer, last_seq)[i]).0
                == last_seq + 1 + i,
{
    let n = e.buffer.len();
    let first = e.seq - n + 1;
    let k = last_seq + 1 - first;
    lemma_frames_after_suffix(e.buffer, last_seq, first, n);
    assert(frames_after(e.buffer, last_seq) == e.buffer.subrange(k, n as int));
}

/// Over consecutively numbered frames starting at `first`, the frames after
/// `last_seq` are the suffix from `last_seq + 1`.
proof fn lemma_frames_after_suffix(b: Seq<FrameView>, last_seq: u64, first: int, n: nat)
    requires
        b.len() == n,
        forall|i: int| 0 <= i < b.len() ==> (#[trigger] b[i]).0 == first + i,
        first <= last_seq + 1,
    ensures
        frames_after(b, last_seq) == b.subrange(
            if last_seq + 1 - first <= n { last_seq + 1 - first } else { n as int },
            n as int,
        ),
    decreases n,
{
    let k = if last_seq + 1 - first <= n { last_seq + 1 - first } else { n as int };
    if n == 0 {
        assert(b.subrange(k, 0) =~= Seq::<FrameView>::empty());
    } else {
        let c = b.drop_last();
        assert forall|i: int| 0 <= i < c.len() implies (#[trigger] c[i]).0 == first + i by {
            assert(c[i] == b[i]);
        }
        lemma_frames_after_suffix(c, last_seq, first, (n - 1) as nat);
        let kc = if last_seq + 1 - first <= n - 1 { last_seq + 1 - first } else { n - 1 };
        assert(b.last().0 == first + n - 1);
        if b.last().0 > last_seq {
            assert(k == kc);
            assert(b.subrange(k, n as int) =~= c.subrange(kc, n - 1).push(b.last()));
        } else {
            assert(k == n);
            assert(kc == n - 1);
            assert(c.subrange(kc, n - 1) =~= Seq::<FrameView>::empty());
            assert(b.subrange(k, n as int) =~= Seq::<FrameView>::empty());
        }
    }
}

/// A dispatch gives the session the next number and appends its frame,
/// numbered so, at the end of the buffer.
pub proof fn lemma_dispatch_appends(v: HubView, sid: u64, t: Seq<char>, d: Seq<char>)
    requires
        v.sessions.contains_key(sid),
        v.sessions[sid].seq < u64::MAX,
    ensures
        view_dispatch(v, sid, t, d).sessions[sid].seq == v.sessions[sid].seq + 1,
        view_dispatch(v, sid, t, d).sessions[sid].buffer.last() == ((v.sessions[sid].seq + 1) as u64, t, d),
        view_dispatch(v, sid, t, d).subscribers == v.subscribers,
{
}

/// Detaching keeps what a resume needs: number, buffer and token.
pub proof fn lemma_detach_keeps_stream(v: HubView, sid: u64, now: u64)
    requires
        v.sessions.contains_key(sid),
    ensures
        view_detach(v, sid, now).sessions[sid].seq == v.sessions[sid].seq,
        view_detach(v, sid, now).sessions[sid].buffer == v.sessions[sid].buffer,
        view_detach(v, sid, now).sessions[sid].token == v.sessions[sid].token,
        !view_detach(v, sid, now).sessions[sid].live,
{
}

/// A delivery never lowers a session's number, and leaves the sessions it
/// does not reach as they were.
pub proof fn lemma_deliver_monotone(v: HubView, targets: Seq<u64>, t: Seq<char>, d: Seq<char>, sid: u64)
    requires
        v.sessions.contains_key(sid),
        deliver_fits(v, targets, t, d),
    ensures
        view_deliver(v, targets, t, d).sessions.contains_key(sid),
        view_deliver(v, targets, t, d).sessions[sid].seq >= v.sessions[sid].seq,
        !targets.contains(sid) ==> view_deliver(v, targets, t, d).sessions[sid] == v.sessions[sid],
    decreases targets.len(),
{
    if targets.len() > 0 {
        let p = targets.drop_last();
        assert forall|j: int| #![trigger p[j]] 0 <= j < p.len() implies {
            let w = view_deliver(v, p.take(j), t, d);
            w.sessions.contains_key(p[j]) ==> w.sessions[p[j]].seq < u64::MAX
        } by {
            assert(p.take(j) =~= targets.take(j));
            assert(p[j] == targets[j]);
        }
        lemma_deliver_monotone(v, p, t, d, sid);
        let n = targets.len() - 1;
        assert(targets.take(n) =~= p);
        assert(targets[n] == targets.last());
        if !targets.contains(sid) {
            assert(!targets.drop_last().contains(sid)) by {
                if targets.drop_last().contains(sid) {
                    let k = choose|k: int| 0 <= k < targets.drop_last().len() && targets.drop_last()[k] == sid;
                    assert(targets[k] == sid);
                }
            }
            assert(targets.last() != sid) by {
                assert(targets[targets.len() - 1] == targets.last());
            }
        }
    }
}

impl Hub {
    /// Each session's buffer holds its most recent frames, at most the
    /// capacity, numbered consecutively up to its last number.
    pub proof fn lemma_buffer_window(&self, sid: u64)
        requires
            self.wf(),
            self@.sessions.contains_key(sid),
        ensures
            session_ok(self@.sessions[sid]),
    {
        let k = choose|k: int| 0 <= k < self.sessions@.len() && #[trigger] self.sessions@[k].0.rank() == key_of(sid);
        lemma_rank_map_index(self.sessions@, k);
    }
}

/// How often `s` occurs in `ts`.
pub open spec fn occurrences(ts: Seq<u64>, s: u64) -> nat
    decreases ts.len(),
{
    if ts.len() == 0 {
        0
    } else {
        occurrences(ts.drop_last(), s) + if ts.last() == s {
            1nat
        } else {
            0nat
        }
    }
}

/// Target `j` of a delivery would get its number without passing the
/// largest `u64`: its number before the delivery plus its earlier turns stays
/// below it.
pub open spec fn turn_fits(v: HubView, ts: Seq<u64>, j: int) -> bool {
    v.sessions.contains_key(ts[j]) ==> v.sessions[ts[j]].seq + occurrences(ts.take(j), ts[j]) < u64::MAX
}

/// Every target of a delivery gets its number without passing the largest
/// `u64`.
pub open spec fn seq_room(v: HubView, ts: Seq<u64>) -> bool {
    forall|j: int| 0 <= j < ts.len() ==> #[trigger] turn_fits(v, ts, j)
}

/// The delivery condition at turn `j`, as `deliver_fits` states it.
spec fn dispatch_fits_at(v: HubView, ts: Seq<u64>, t: Seq<char>, d: Seq<char>, j: int) -> bool {
    let w = view_deliver(v, ts.take(j), t, d);
    w.sessions.contains_key(ts[j]) ==> w.sessions[ts[j]].seq < u64::MAX
}

proof fn lemma_occurrences_step(ts: Seq<u64>, j: int, s: u64)
    requires
        0 <= j < ts.len(),
    ensures
        occurrences(ts.take(j + 1), s) == occurrences(ts.take(j), s) + if ts[j] == s {
            1nat
        } else {
            0nat
        },
{
    assert(ts.take(j + 1).drop_last() =~= ts.take(j));
}

/// While no turn before `j` passed the largest number, a session's number
/// after the first `j` turns is its number before plus its turns among them,
/// and the set of sessions is unchanged.
proof fn lemma_deliver_numbers(v: HubView, ts: Seq<u64>, t: Seq<char>, d: Seq<char>, j: int)
    requires
        0 <= j <= ts.len(),
        forall|k: int| 0 <= k < j ==> #[trigger] dispatch_fits_at(v, ts, t, d, k),
    ensures
        forall|s: u64|
            #![trigger view_deliver(v, ts.take(j), t, d).sessions.contains_key(s)]
            view_deliver(v, ts.take(j), t, d).sessions.contains_key(s) == v.sessions.contains_key(s),
        forall|s: u64|
            #![trigger view_deliver(v, ts.take(j), t, d).sessions[s]]
            v.sessions.contains_key(s) ==> view_deliver(v, ts.take(j), t, d).sessions[s].seq
                == v.sessions[s].seq + occurrences(ts.take(j), s),
    decreases j,
{
    if j == 0 {
        assert(ts.take(0) =~= Seq::<u64>::empty());
    } else {
        lemma_deliver_numbers(v, ts, t, d, j - 1);
        let prev = ts.take(j - 1);
        assert(ts.take(j).drop_last() =~= prev);
        assert(ts.take(j).last() == ts[j - 1]);
        let w = view_deliver(v, prev, t, d);
        assert(dispatch_fits_at(v, ts, t, d, j - 1));
        assert forall|s: u64| v.sessions.contains_key(s) implies #[trigger] view_deliver(v, ts.take(j), t, d).sessions[s].seq
            == v.sessions[s].seq + occurrences(ts.take(j), s) by {
            lemma_occurrences_step(ts, j - 1, s);
            assert(w.sessions.contains_key(s));
        }
        assert forall|s: u64| #[trigger] view_deliver(v, ts.take(j), t, d).sessions.contains_key(s)
            == v.sessions.contains_key(s) by {
            assert(w.sessions.contains_key(s) == v.sessions.contains_key(s));
        }
    }
}

/// The delivery condition holds exactly when every turn has room.
pub proof fn lemma_seq_room(v: HubView, ts: Seq<u64>, t: Seq<char>, d: Seq<char>)
    ensures
        deliver_fits(v, ts, t, d) <==> seq_room(v, ts),
{
    if deliver_fits(v, ts, t, d) {
        assert forall|j: int| 0 <= j < ts.len() implies #[trigger] turn_fits(v, ts, j) by {
            assert forall|k: int| 0 <= k < j implies #[trigger] dispatch_fits_at(v, ts, t, d, k) by {
                assert(ts[k] == ts[k]);
            }
            lemma_deliver_numbers(v, ts, t, d, j);
            assert(ts[j] == ts[j]);
            let w = view_deliver(v, ts.take(j), t, d);
            assert(w.sessions.contains_key(ts[j]) == v.sessions.contains_key(ts[j]));
            if v.sessions.contains_key(ts[j]) {
                assert(w.sessions[ts[j]].seq == v.sessions[ts[j]].seq + occurrences(ts.take(j), ts[j]));
            }
        }
    }
    if seq_room(v, ts) {
        assert forall|j: int| #![trigger ts[j]] 0 <= j < ts.len() implies {
            let w = view_deliver(v, ts.take(j), t, d);
            w.sessions.contains_key(ts[j]) ==> w.sessions[ts[j]].seq < u64::MAX
        } by {
            lemma_room_prefix(v, ts, t, d, j + 1);
            assert(dispatch_fits_at(v, ts, t, d, j));
        }
    }
}

proof fn lemma_room_prefix(v: HubView, ts: Seq<u64>, t: Seq<char>, d: Seq<char>, j: int)
    requires
        seq_room(v, ts),
        0 <= j <= ts.len(),
    ensures
        forall|k: int| 0 <= k < j ==> #[trigger] dispatch_fits_at(v, ts, t, d, k),
    decreases j,
{
    if j > 0 {
        lemma_room_prefix(v, ts, t, d, j - 1);
        lemma_deliver_numbers(v, ts, t, d, j - 1);
        assert(turn_fits(v, ts, j - 1));
        let w = view_deliver(v, ts.take(j - 1), t, d);
        assert(w.sessions.contains_key(ts[j - 1]) == v.sessions.contains_key(ts[j - 1]));
        if v.sessions.contains_key(ts[j - 1]) {
            assert(w.sessions[ts[j - 1]].seq == v.sessions[ts[j - 1]].seq + occurrences(ts.take(j - 1), ts[j - 1]));
        }
        assert(dispatch_fits_at(v, ts, t, d, j - 1));
    }
}

impl Hub {
    /// The number of a session's last dispatch, if the session exists.
    pub fn session_seq(&self, session_id: u64) -> (r: Option<u64>)
        requires
            self.wf(),
        ensures
            r == (if self@.sessions.contains_key(session_id) {
                Some(self@.sessions[session_id].seq)
            } else {
                None::<u64>
            }),
    {
        match self.sessions.find(&session_id) {
            Ok(i) => {
                proof {
                    lemma_rank_map_index(self.sessions@, i as int);
                    lemma_key_of_injective(self.sessions@[i as int].0, session_id);
                }
                Some(self.sessions.value_at(i).seq)
            },
            Err(i) => {
                proof {
                    crate::collections::lemma_fits_absent(self.sessions@, i as int, key_of(session_id));
                }
                None
            },
        }
    }

    /// Whether every turn of a delivery to `ids` has room.
    fn room_for(&self, ids: &Vec<u64>) -> (r: bool)
        requires
            self.wf(),
        ensures
            r == seq_room(self@, ids@),
    {
        let mut j: usize = 0;
        while j < ids.len()
            invariant
                self.wf(),
                j <= ids@.len(),
                forall|k: int| 0 <= k < j ==> #[trigger] turn_fits(self@, ids@, k),
            decreases ids@.len() - j,
        {
            let s = ids[j];
            match self.session_seq(s) {
                Some(q) => {
                    let mut c: u64 = 0;
                    let mut k: usize = 0;
                    while k < j
                        invariant
                            j < ids@.len(),
                            s == ids@[j as int],
                            k <= j,
                            c <= k,
                            c == occurrences(ids@.take(k as int), s),
                        decreases j - k,
                    {
                        proof {
                            lemma_occurrences_step(ids@, k as int, s);
                        }
                        if ids[k] == s {
                            c = c + 1;
                        }
                        k = k + 1;
                    }
                    if c >= u64::MAX - q {
                        assert(!turn_fits(self@, ids@, j as int));
                        return false;
                    }
                    assert(turn_fits(self@, ids@, j as int));
                },
                None => {
                    assert(turn_fits(self@, ids@, j as int));
                },
            }
            j = j + 1;
        }
        true
    }

    /// Delivers like [`Hub::deliver`] where every target has room for its next
    /// number; otherwise changes nothing and gives `None`.
    pub fn try_deliver(&mut self, user_ids: &[u64], event: &ServerEvent) -> (r: Option<Vec<(u64, DispatchFrame)>>)
        requires
            old(self).wf(),
        ensures
            final(self).wf(),
            r is Some <==> deliver_fits(old(self)@, old(self).targets(user_ids@), event.t@, event.d@),
            r is None ==> final(self)@ == old(self)@,
            r matches Some(frames) ==> {
                &&& final(self)@ == view_deliver(old(self)@, old(self).targets(user_ids@), event.t@, event.d@)
                &&& frames@.map_values(|p: (u64, DispatchFrame)| (p.0, frame_view(p.1))) == deliver_frames(
                    old(self)@,
                    old(self).targets(user_ids@),
                    event.t@,
                    event.d@,
                )
            },
    {
        let ids = self.collect_targets(user_ids);
        proof {
            lemma_seq_room(self@, ids@, event.t@, event.d@);
        }
        if self.room_for(&ids) {
            Some(self.deliver(user_ids, event))
        } else {
            None
        }
    }

    /// Whether a resume of `session_id` is free of overflow: false only for
    /// a live-buffered session whose token and number check out and that
    /// claims the largest number.
    pub fn resume_fits(&self, session_id: u64, token: &str, last_seq: u64, now_ms: u64) -> (r: bool)
        requires
            self.wf(),
        ensures
            r == resume_safe(self@, session_id, token@, last_seq, now_ms),
    {
        if last_seq < u64::MAX {
            return true;
        }
        match self.sessions.find(&session_id) {
            Ok(i) => {
                proof {
                    lemma_rank_map_index(self.sessions@, i as int);
                    lemma_key_of_injective(self.sessions@[i as int].0, session_id);
                }
                let e = self.sessions.value_at(i);
                let expired = match e.detached_at {
                    Some(t) => now_ms > t && now_ms - t > DETACHED_GRACE_MS,
                    None => false,
                };
                !(!expired && crate::text::str_eq(e.resume_token.as_str(), token) && last_seq <= e.seq && e.buffer.len() > 0)
            },
            Err(i) => {
                proof {
                    crate::collections::lemma_fits_absent(self.sessions@, i as int, key_of(session_id));
                }
                true
            },
        }
    }
}

} // verus!
