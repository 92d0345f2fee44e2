//! The decisions of a gateway connection: HELLO, then IDENTIFY (new
//! session) or RESUME (continue one), then the heartbeat and dispatch loop.
//! The socket edge reads and writes frames; each step here takes what was
//! read and says what to do.

use vstd::prelude::*;
use crate::auth::paseto::public_token_subject;
use crate::auth::token::TokenKeys;
use crate::domain::id::UserId;
use crate::gateway::presence::Status;
use crate::gateway::protocol::{IdentifyData, Outgoing, ResumeData};
use crate::text::{decimal_string, decimal_text, parse_uint, parse_uint_spec, IntErrorKind};

verus! {

/// How a client opened its session.
#[derive(Clone, Debug, PartialEq, Eq)]
pub enum Handshake {
    /// A new session for the user of a valid access token.
    Identify { user_id: u64 },
    /// A request to continue a session.
    Resume { session_id: u64, token: String, seq: u64 },
}

/// A message read during the handshake, as the socket edge decoded it.
#[derive(Clone, Debug, PartialEq, Eq)]
pub enum HandshakeInput {
    /// An IDENTIFY frame; `None` when its payload did not decode.
    Identify(Option<IdentifyData>),
    /// A RESUME frame; `None` when its payload did not decode.
    Resume(Option<ResumeData>),
    /// A HEARTBEAT frame.
    Heartbeat,
    /// A frame with another opcode.
    OtherOp,
    /// A text message that is not a frame.
    Undecodable,
    /// A ping, pong or binary message.
    NonText,
    /// The socket closed.
    Closed,
    /// The socket failed.
    Failed,
}

/// What to do with a handshake message.
#[derive(Clone, Debug, PartialEq, Eq)]
pub enum HandshakeStep {
    /// The handshake is done.
    Done(Handshake),
    /// Send INVALID_SESSION and end the connection.
    Invalid,
    /// Send HEARTBEAT_ACK (end the connection if that fails) and keep waiting.
    Ack,
    /// Keep waiting.
    Continue,
    /// End the connection.
    Stop,
}

/// The step for a message; an IDENTIFY with a payload is not decided here
/// (it rests on the token check).
pub open spec fn handshake_step_spec(input: HandshakeInput) -> HandshakeStep {
    match input {
        HandshakeInput::Identify(_) => HandshakeStep::Invalid,
        HandshakeInput::Resume(None) => HandshakeStep::Invalid,
        HandshakeInput::Resume(Some(d)) => match parse_uint_spec(vstd::utf8::encode_utf8(d.session_id@), u64::MAX as int) {
            Ok(sid) => HandshakeStep::Done(Handshake::Resume { session_id: sid as u64, token: d.token, seq: d.seq }),
            Err(_) => HandshakeStep::Invalid,
        },
        HandshakeInput::Heartbeat => HandshakeStep::Ack,
        HandshakeInput::OtherOp => HandshakeStep::Continue,
        HandshakeInput::Undecodable => HandshakeStep::Continue,
        HandshakeInput::NonText => HandshakeStep::Continue,
        HandshakeInput::Closed => HandshakeStep::Stop,
        HandshakeInput::Failed => HandshakeStep::Stop,
    }
}

/// Decides a handshake message. An IDENTIFY is accepted for the user its
/// access token names, when the token checks out; any failure to decode or
/// check ends the connection with INVALID_SESSION.
pub fn handshake_step(keys: &TokenKeys, input: HandshakeInput) -> (r: HandshakeStep)
    requires
        keys.wf(),
    ensures
        !(input matches HandshakeInput::Identify(Some(_))) ==> r == handshake_step_spec(input),
        input matches HandshakeInput::Identify(Some(d)) ==> (r is Invalid || (r matches HandshakeStep::Done(
            Handshake::Identify { user_id },
        ) && (public_token_subject(keys.public_bytes(), d.token@) matches Some(s) && parse_uint_spec(
            vstd::utf8::encode_utf8(s),
            u64::MAX as int,
        ) == Ok::<int, IntErrorKind>(user_id as int)))),
        input matches HandshakeInput::Identify(Some(d)) ==> (public_token_subject(keys.public_bytes(), d.token@) is None
            ==> r is Invalid),
{
    match input {
        HandshakeInput::Identify(Some(data)) => match keys.verify_access(data.token.as_str()) {
            Ok(uid) => HandshakeStep::Done(Handshake::Identify { user_id: uid }),
            Err(_) => HandshakeStep::Invalid,
        },
        HandshakeInput::Identify(None) => HandshakeStep::Invalid,
        HandshakeInput::Resume(Some(data)) => match parse_uint(data.session_id.as_str(), u64::MAX) {
            Ok(sid) => HandshakeStep::Done(Handshake::Resume { session_id: sid, token: data.token, seq: data.seq }),
            Err(_) => HandshakeStep::Invalid,
        },
        HandshakeInput::Resume(None) => HandshakeStep::Invalid,
        HandshakeInput::Heartbeat => HandshakeStep::Ack,
        HandshakeInput::OtherOp => HandshakeStep::Continue,
        HandshakeInput::Undecodable => HandshakeStep::Continue,
        HandshakeInput::NonText => HandshakeStep::Continue,
        HandshakeInput::Closed => HandshakeStep::Stop,
        HandshakeInput::Failed => HandshakeStep::Stop,
    }
}

/// A voice state request (op 4): the realm, the channel joined (`None`
/// leaves voice) and the client's own mute and deafen flags.
#[derive(Clone, Copy, Debug, PartialEq, Eq)]
pub struct VoiceRequest {
    pub realm_id: u64,
    pub channel_id: Option<u64>,
    pub self_mute: bool,
    pub self_deaf: bool,
}

/// An id field: decimal text of a `u64`, else absent.
pub open spec fn id_field(v: Option<Seq<char>>) -> Option<u64> {
    match v {
        Some(s) => match parse_uint_spec(vstd::utf8::encode_utf8(s), u64::MAX as int) {
            Ok(n) => Some(n as u64),
            Err(_) => None,
        },
        None => None,
    }
}

fn parse_id(v: Option<&str>) -> (r: Option<u64>)
    ensures
        r == id_field(match v {
            Some(s) => Some(s@),
            None => None::<Seq<char>>,
        }),
{
    match v {
        Some(s) => match parse_uint(s, u64::MAX) {
            Ok(n) => Some(n),
            Err(_) => None,
        },
        None => None,
    }
}

/// Reads a voice state payload from its fields (each `None` where missing or
/// of another JSON type): no request without a realm id; the flags default
/// to `false`.
pub fn parse_voice_request(
    realm_id: Option<&str>,
    channel_id: Option<&str>,
    self_mute: Option<bool>,
    self_deaf: Option<bool>,
) -> (r: Option<VoiceRequest>)
    ensures
        ({
            let realm = id_field(match realm_id { Some(s) => Some(s@), None => None::<Seq<char>> });
            let channel = id_field(match channel_id { Some(s) => Some(s@), None => None::<Seq<char>> });
            match realm {
                None => r is None,
                Some(rid) => r == Some(VoiceRequest {
                    realm_id: rid,
                    channel_id: channel,
                    self_mute: match self_mute { Some(b) => b, None => false },
                    self_deaf: match self_deaf { Some(b) => b, None => false },
                }),
            }
        }),
{
    let realm = match parse_id(realm_id) {
        Some(r) => r,
        None => return None,
    };
    let channel = parse_id(channel_id);
    let mute = match self_mute {
        Some(b) => b,
        None => false,
    };
    let deaf = match self_deaf {
        Some(b) => b,
        None => false,
    };
    Some(VoiceRequest { realm_id: realm, channel_id: channel, self_mute: mute, self_deaf: deaf })
}

/// What a voice state request leads to.
#[derive(Clone, Copy, Debug, PartialEq, Eq)]
pub struct VoicePlan {
    /// Fan VOICE_STATE_UPDATE out to the realm.
    pub broadcast: bool,
    /// Answer this session with VOICE_SERVER_UPDATE (joining only).
    pub server_update: bool,
}

/// Joining or moving needs the CONNECT permission in the channel
/// (`connect_granted`); leaving needs none. A refused request is dropped
/// silently.
pub fn voice_plan(req: &VoiceRequest, connect_granted: bool) -> (p: VoicePlan)
    ensures
        req.channel_id is Some && !connect_granted ==> !p.broadcast && !p.server_update,
        !(req.channel_id is Some && !connect_granted) ==> p.broadcast && p.server_update == req.channel_id is Some,
{
    match req.channel_id {
        Some(_) => {
            if connect_granted {
                VoicePlan { broadcast: true, server_update: true }
            } else {
                VoicePlan { broadcast: false, server_update: false }
            }
        },
        None => VoicePlan { broadcast: true, server_update: false },
    }
}

/// An event of the main loop: a message from the client (decoded by the
/// socket edge) or a frame from the registry.
#[derive(Clone, Debug, PartialEq, Eq)]
pub enum PumpInput {
    Heartbeat,
    /// A presence update with the status it asked for, if a valid one.
    PresenceUpdate(Option<Status>),
    /// A voice state update with its request, if it had a realm id.
    VoiceStateUpdate(Option<VoiceRequest>),
    /// Another opcode (IDENTIFY and RESUME only count during the handshake).
    OtherOp,
    Undecodable,
    NonText,
    Closed,
    Failed,
    /// A frame the registry handed out for this session.
    Frame(Outgoing),
    /// The registry dropped this session's socket.
    ChannelClosed,
}

/// What the main loop does next.
#[derive(Clone, Debug, PartialEq, Eq)]
pub enum PumpAction {
    /// Send HEARTBEAT_ACK (end if that fails).
    SendAck,
    /// Set the user's presence status.
    SetStatus(u64, Status),
    /// Handle a voice state request of the user.
    Voice(u64, VoiceRequest),
    /// Send the frame as it is (end if that fails).
    Forward(Outgoing),
    /// Nothing to do.
    Ignore,
    /// End the loop.
    Stop,
}

/// One step of the main loop of the session of `user_id` (`None` when a
/// resumed session's user is unknown).
pub fn pump_step(user_id: Option<u64>, input: PumpInput) -> (a: PumpAction)
    ensures
        a == (match input {
            PumpInput::Heartbeat => PumpAction::SendAck,
            PumpInput::PresenceUpdate(Some(st)) => match user_id {
                Some(u) => PumpAction::SetStatus(u, st),
                None => PumpAction::Ignore,
            },
            PumpInput::VoiceStateUpdate(Some(req)) => match user_id {
                Some(u) => PumpAction::Voice(u, req),
                None => PumpAction::Ignore,
            },
            PumpInput::Frame(f) => PumpAction::Forward(f),
            PumpInput::Closed => PumpAction::Stop,
            PumpInput::Failed => PumpAction::Stop,
            PumpInput::ChannelClosed => PumpAction::Stop,
            _ => PumpAction::Ignore,
        }),
{
    match input {
        PumpInput::Heartbeat => PumpAction::SendAck,
        PumpInput::PresenceUpdate(Some(st)) => match user_id {
            Some(u) => PumpAction::SetStatus(u, st),
            None => PumpAction::Ignore,
        },
        PumpInput::VoiceStateUpdate(Some(req)) => match user_id {
            Some(u) => PumpAction::Voice(u, req),
            None => PumpAction::Ignore,
        },
        PumpInput::Frame(f) => PumpAction::Forward(f),
        PumpInput::Closed => PumpAction::Stop,
        PumpInput::Failed => PumpAction::Stop,
        PumpInput::ChannelClosed => PumpAction::Stop,
        _ => PumpAction::Ignore,
    }
}

/// The presence change after a socket came (`attached`) or went: the first
/// live session brings the user online, the last one gone takes them
/// offline.
pub fn presence_transition(live_count: usize, attached: bool) -> (r: Option<Status>)
    ensures
        r == (if attached && live_count == 1 {
            Some(Status::Online)
        } else if !attached && live_count == 0 {
            Some(Status::Offline)
        } else {
            None::<Status>
        }),
{
    if attached && live_count == 1 {
        Some(Status::Online)
    } else if !attached && live_count == 0 {
        Some(Status::Offline)
    } else {
        None
    }
}

/// The users whose unread-mention count goes up: those mentioned, but not
/// the author.
pub open spec fn mention_bumps(mentions: Seq<UserId>, author: UserId) -> Seq<UserId>
    decreases mentions.len(),
{
    if mentions.len() == 0 {
        Seq::empty()
    } else {
        let rest = mention_bumps(mentions.drop_last(), author);
        if mentions.last().0.0 != author.0.0 {
            rest.push(mentions.last())
        } else {
            rest
        }
    }
}

/// The mentioned users, without the author, in order.
pub fn mention_bump_targets(mentions: &[UserId], author: UserId) -> (r: Vec<UserId>)
    ensures
        r@ == mention_bumps(mentions@, author),
{
    let mut out: Vec<UserId> = Vec::new();
    let mut i: usize = 0;
    while i < mentions.len()
        invariant
            i <= mentions@.len(),
            out@ == mention_bumps(mentions@.take(i as int), author),
        decreases mentions.len() - i,
    {
        assert(mentions@.take(i + 1).drop_last() =~= mentions@.take(i as int));
        if mentions[i].0.0 != author.0.0 {
            out.push(mentions[i]);
        }
        i = i + 1;
    }
    assert(mentions@.take(mentions@.len() as int) =~= mentions@);
    out
}

/// The MESSAGE_CREATE payload, ids in decimal text.
#[derive(Clone, Debug, PartialEq, Eq)]
pub struct MessageCreatePayload {
    pub id: String,
    pub channel_id: String,
    pub author_id: String,
    pub content: String,
    pub nonce: Option<String>,
    pub reference_message_id: Option<String>,
    pub mentions: Vec<String>,
}

/// Assembles MESSAGE_CREATE: the ids as decimal text.
pub fn message_create_payload(
    message_id: u64,
    channel_id: u64,
    author: u64,
    content: &str,
    nonce: &Option<String>,
    reference_message_id: Option<u64>,
    mentions: &[u64],
) -> (p: MessageCreatePayload)
    ensures
        p.id@ == decimal_text(message_id as nat),
        p.channel_id@ == decimal_text(channel_id as nat),
        p.author_id@ == decimal_text(author as nat),
        p.content@ == content@,
        p.nonce == *nonce,
        reference_message_id is None ==> p.reference_message_id is None,
        reference_message_id matches Some(r) ==> (p.reference_message_id matches Some(t) && t@ == decimal_text(r as nat)),
        p.mentions@.len() == mentions@.len(),
        forall|i: int| 0 <= i < mentions@.len() ==> (#[trigger] p.mentions@[i])@ == decimal_text(mentions@[i] as nat),
{
    let mut ms: Vec<String> = Vec::new();
    let mut i: usize = 0;
    while i < mentions.len()
        invariant
            i <= mentions@.len(),
            ms@.len() == i,
            forall|k: int| 0 <= k < i ==> (#[trigger] ms@[k])@ == decimal_text(mentions@[k] as nat),
        decreases mentions.len() - i,
    {
        ms.push(decimal_string(mentions[i]));
        i = i + 1;
    }
    let n = match nonce {
        Some(s) => Some(s.clone()),
        None => None,
    };
    MessageCreatePayload {
        id: decimal_string(message_id),
        channel_id: decimal_string(channel_id),
        author_id: decimal_string(author),
        content: content.to_owned(),
        nonce: n,
        reference_message_id: match reference_message_id {
            Some(r) => Some(decimal_string(r)),
            None => None,
        },
        mentions: ms,
    }
}

/// What storing a created message gave.
#[derive(Clone, Copy, Debug, PartialEq, Eq)]
pub enum PersistOutcome {
    /// Stored: go on to fan it out.
    Stored,
    /// The same nonce was stored before: it was already delivered.
    Duplicate,
    /// Storing failed: it is not fanned out.
    Failed,
}

/// Only a stored message is fanned out (a retried nonce is not delivered twice).
pub fn fans_out(o: PersistOutcome) -> (r: bool)
    ensures
        r == (o is Stored),
{
    match o {
        PersistOutcome::Stored => true,
        _ => false,
    }
}

} // verus!
