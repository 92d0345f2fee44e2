use std::collections::VecDeque;

use backend::auth::token::TokenKeys;
use backend::domain::id::{Snowflake, UserId};
use backend::gateway::hub::{DispatchFrame, Hub, ResumeOutcome, DEFAULT_REPLAY_CAP, DETACHED_GRACE_MS};
use backend::gateway::presence::{parse_presence_status, Status};
use backend::gateway::protocol::op;
use backend::gateway::protocol::{IdentifyData, Outgoing, ResumeData, ServerEvent};
use backend::gateway::session::{
    fans_out, handshake_step, mention_bump_targets, message_create_payload, parse_voice_request,
    presence_transition, pump_step, voice_plan, Handshake, HandshakeInput, HandshakeStep, PersistOutcome,
    PumpAction, PumpInput, VoiceRequest,
};
use backend::domain::permissions::{Permissions, SEND_MESSAGES, VIEW_CHANNEL};
use backend::gateway::routes::{check_send, is_blank, may_send, SendRejection};
use backend::gateway::user_route::group_remote_targets;

fn ev(content: &str) -> ServerEvent {
    ServerEvent { t: "MESSAGE_CREATE".into(), d: format!("{{\"content\":\"{content}\"}}") }
}

/// A session's socket channel of bounded capacity, as the socket edge keeps
/// it: a frame that does not fit drops the socket (the buffer stays).
struct Socket {
    cap: usize,
    queue: VecDeque<DispatchFrame>,
    open: bool,
}

impl Socket {
    fn new(cap: usize) -> Self {
        Socket { cap, queue: VecDeque::new(), open: true }
    }
    fn push(&mut self, hub: &mut Hub, sid: u64, frames: Vec<(u64, DispatchFrame)>) {
        for (s, f) in frames {
            if s == sid && self.open {
                if self.queue.len() < self.cap {
                    self.queue.push_back(f);
                } else {
                    self.open = false;
                    hub.drop_live(sid);
                }
            }
        }
    }
    fn recv(&mut self) -> Option<DispatchFrame> {
        self.queue.pop_front()
    }
}

fn seqs(replay: &[DispatchFrame]) -> Vec<u64> {
    replay.iter().map(|f| f.s).collect()
}

#[test]
fn deliver_assigns_monotonic_seq() {
    let mut hub = Hub::new();
    let _tok = hub.attach(1, 100, 16, 0);
    hub.activate(1, 100);
    let mut rx = Socket::new(16);
    let out = hub.deliver(&[1], &ev("a"));
    rx.push(&mut hub, 100, out);
    let out = hub.deliver(&[1], &ev("b"));
    rx.push(&mut hub, 100, out);
    let f1 = rx.recv().unwrap();
    let f2 = rx.recv().unwrap();
    assert_eq!(f1.to_outgoing().s, Some(1));
    assert_eq!(f2.to_outgoing().s, Some(2));
}

#[test]
fn resume_replays_missed_events() {
    let mut hub = Hub::new();
    let token = hub.attach(1, 100, 16, 0);
    hub.activate(1, 100);
    let mut rx = Socket::new(16);
    let out = hub.deliver(&[1], &ev("a"));
    rx.push(&mut hub, 100, out);
    let _ = rx.recv().unwrap();
    hub.detach(100, 10);
    assert!(hub.deliver(&[1], &ev("b")).is_empty());
    assert!(hub.deliver(&[1], &ev("c")).is_empty());
    match hub.resume(100, &token, 1, 20) {
        ResumeOutcome::Resumed { replay, last_seq } => {
            assert_eq!(last_seq, 3);
            assert_eq!(seqs(&replay), vec![2, 3]);
        }
        ResumeOutcome::Invalid => panic!("resume should succeed"),
    }
}

#[test]
fn resume_rejects_bad_token() {
    let mut hub = Hub::new();
    let _token = hub.attach(1, 100, 16, 0);
    hub.activate(1, 100);
    assert!(matches!(hub.resume(100, "deadbeef", 0, 0), ResumeOutcome::Invalid));
}

#[test]
fn resume_detects_gap_after_eviction() {
    let mut hub = Hub::new();
    let cap = 4;
    let token = hub.attach(1, 100, cap, 0);
    hub.activate(1, 100);
    for i in 0..6 {
        hub.deliver(&[1], &ev(&i.to_string()));
    }
    assert!(matches!(hub.resume(100, &token, 1, 0), ResumeOutcome::Invalid));
    match hub.resume(100, &token, 3, 0) {
        ResumeOutcome::Resumed { replay, .. } => {
            assert_eq!(seqs(&replay), vec![4, 5, 6]);
        }
        ResumeOutcome::Invalid => panic!("resume after seq 3 should succeed"),
    }
}

#[test]
fn slow_session_is_disconnected_but_buffer_survives() {
    let mut hub = Hub::new();
    let cap = 2;
    let token = hub.attach(1, 100, cap, 0);
    hub.activate(1, 100);
    let mut rx = Socket::new(cap);
    for c in ["a", "b", "c", "d"] {
        let out = hub.deliver(&[1], &ev(c));
        rx.push(&mut hub, 100, out);
    }
    assert!(rx.recv().is_some());
    assert!(rx.recv().is_some());
    assert!(rx.recv().is_none() && !rx.open, "a slow session is disconnected");
    assert_eq!(hub.live_count(1), 0);
    match hub.resume(100, &token, 2, 0) {
        ResumeOutcome::Resumed { replay, .. } => {
            assert_eq!(seqs(&replay), vec![3, 4]);
        }
        ResumeOutcome::Invalid => panic!("resume within the buffer should succeed"),
    }
    assert_eq!(hub.live_count(1), 1);
}

#[test]
fn resume_unknown_session_invalid() {
    let mut hub = Hub::new();
    assert!(matches!(hub.resume(999, "x", 0, 0), ResumeOutcome::Invalid));
}

#[test]
fn expired_detached_session_is_purged() {
    let mut hub = Hub::new();
    let token = hub.attach(1, 100, DEFAULT_REPLAY_CAP, 0);
    hub.activate(1, 100);
    hub.detach(100, 1_000);
    assert!(matches!(hub.resume(100, &token, 0, 1_000 + DETACHED_GRACE_MS + 1), ResumeOutcome::Invalid));
    assert_eq!(hub.session_user(100), None);
}

#[test]
fn grace_keeps_detached_session() {
    let mut hub = Hub::new();
    let token = hub.attach(7, 100, DEFAULT_REPLAY_CAP, 0);
    hub.activate(7, 100);
    hub.detach(100, 1_000);
    assert_eq!(hub.live_count(7), 0);
    assert!(matches!(
        hub.resume(100, &token, 0, 1_000 + DETACHED_GRACE_MS),
        ResumeOutcome::Resumed { last_seq: 0, .. }
    ));
    assert_eq!(hub.session_user(100), Some(7));
}

#[test]
fn dispatch_one_and_remove() {
    let mut hub = Hub::new();
    let _t = hub.attach(5, 1, 8, 0);
    let f = hub.dispatch_one(1, "READY", "{}".into()).unwrap();
    assert_eq!(f, DispatchFrame { s: 1, t: "READY".into(), d: "{}".into() });
    assert!(hub.dispatch_one(2, "READY", "{}".into()).is_none());
    hub.activate(5, 1);
    assert_eq!(hub.deliver(&[5], &ev("x"))[0].1.s, 2);
    hub.remove(1);
    assert!(hub.deliver(&[5], &ev("y")).is_empty());
    assert_eq!(hub.session_user(1), None);
}

#[test]
fn parse_presence_status_accepts_online_family_only() {
    fn parse(json: &str) -> Option<Status> {
        let v: serde_json::Value = serde_json::from_str(json).unwrap();
        parse_presence_status(v.get("status").and_then(|s| s.as_str()))
    }
    assert_eq!(parse(r#"{ "status": "online" }"#), Some(Status::Online));
    assert_eq!(parse(r#"{ "status": "idle" }"#), Some(Status::Idle));
    assert_eq!(parse(r#"{ "status": "dnd" }"#), Some(Status::Dnd));
    assert_eq!(parse(r#"{ "status": "offline" }"#), None);
    assert_eq!(parse(r#"{ "status": "bogus" }"#), None);
    assert_eq!(parse(r#"{}"#), None);
}

#[test]
fn handshake_steps() {
    let keys = TokenKeys::generate().unwrap();
    let token = keys.issue_access(77).unwrap();
    assert_eq!(
        handshake_step(&keys, HandshakeInput::Identify(Some(IdentifyData { token }))),
        HandshakeStep::Done(Handshake::Identify { user_id: 77 })
    );
    assert_eq!(
        handshake_step(&keys, HandshakeInput::Identify(Some(IdentifyData { token: "nope".into() }))),
        HandshakeStep::Invalid
    );
    assert_eq!(handshake_step(&keys, HandshakeInput::Identify(None)), HandshakeStep::Invalid);
    assert_eq!(
        handshake_step(
            &keys,
            HandshakeInput::Resume(Some(ResumeData { session_id: "12".into(), token: "t".into(), seq: 3 }))
        ),
        HandshakeStep::Done(Handshake::Resume { session_id: 12, token: "t".into(), seq: 3 })
    );
    assert_eq!(
        handshake_step(
            &keys,
            HandshakeInput::Resume(Some(ResumeData { session_id: "x".into(), token: "t".into(), seq: 3 }))
        ),
        HandshakeStep::Invalid
    );
    assert_eq!(handshake_step(&keys, HandshakeInput::Heartbeat), HandshakeStep::Ack);
    assert_eq!(handshake_step(&keys, HandshakeInput::OtherOp), HandshakeStep::Continue);
    assert_eq!(handshake_step(&keys, HandshakeInput::Closed), HandshakeStep::Stop);
}

#[test]
fn pump_steps() {
    let req = VoiceRequest { realm_id: 1, channel_id: Some(2), self_mute: false, self_deaf: true };
    assert_eq!(pump_step(Some(9), PumpInput::Heartbeat), PumpAction::SendAck);
    assert_eq!(
        pump_step(Some(9), PumpInput::PresenceUpdate(Some(Status::Idle))),
        PumpAction::SetStatus(9, Status::Idle)
    );
    assert_eq!(pump_step(None, PumpInput::PresenceUpdate(Some(Status::Idle))), PumpAction::Ignore);
    assert_eq!(pump_step(Some(9), PumpInput::PresenceUpdate(None)), PumpAction::Ignore);
    assert_eq!(pump_step(Some(9), PumpInput::VoiceStateUpdate(Some(req))), PumpAction::Voice(9, req));
    let f = Outgoing::heartbeat_ack();
    assert_eq!(pump_step(None, PumpInput::Frame(f.clone())), PumpAction::Forward(f));
    assert_eq!(pump_step(Some(1), PumpInput::ChannelClosed), PumpAction::Stop);
    assert_eq!(pump_step(Some(1), PumpInput::Undecodable), PumpAction::Ignore);
}

#[test]
fn voice_requests_and_plans() {
    let r = parse_voice_request(Some("5"), Some("6"), Some(true), None).unwrap();
    assert_eq!(r, VoiceRequest { realm_id: 5, channel_id: Some(6), self_mute: true, self_deaf: false });
    assert_eq!(parse_voice_request(None, Some("6"), None, None), None);
    assert_eq!(parse_voice_request(Some("x"), None, None, None), None);
    let leave = parse_voice_request(Some("5"), Some("bad"), None, None).unwrap();
    assert_eq!(leave.channel_id, None);
    let p = voice_plan(&r, true);
    assert!(p.broadcast && p.server_update);
    let p = voice_plan(&r, false);
    assert!(!p.broadcast && !p.server_update);
    let p = voice_plan(&leave, false);
    assert!(p.broadcast && !p.server_update);
}

#[test]
fn presence_transitions() {
    assert_eq!(presence_transition(1, true), Some(Status::Online));
    assert_eq!(presence_transition(2, true), None);
    assert_eq!(presence_transition(0, false), Some(Status::Offline));
    assert_eq!(presence_transition(1, false), None);
}

#[test]
fn message_create_and_mentions() {
    let u = |n: u64| UserId(Snowflake::from_raw(n));
    assert_eq!(mention_bump_targets(&[u(1), u(2), u(1), u(3)], u(1)), vec![u(2), u(3)]);
    let p = message_create_payload(10, 20, 30, "hi", &Some("n".into()), Some(5), &[2, 3]);
    assert_eq!(p.id, "10");
    assert_eq!(p.channel_id, "20");
    assert_eq!(p.author_id, "30");
    assert_eq!(p.content, "hi");
    assert_eq!(p.nonce, Some("n".to_string()));
    assert_eq!(p.reference_message_id, Some("5".to_string()));
    assert_eq!(p.mentions, vec!["2".to_string(), "3".to_string()]);
    assert!(fans_out(PersistOutcome::Stored));
    assert!(!fans_out(PersistOutcome::Duplicate));
    assert!(!fans_out(PersistOutcome::Failed));
}

#[test]
fn frames_carry_opcodes() {
    assert_eq!(Outgoing::hello(41_250).op, op::HELLO);
    assert_eq!(Outgoing::heartbeat_ack().op, op::HEARTBEAT_ACK);
    assert_eq!(Outgoing::invalid_session().op, op::INVALID_SESSION);
    let d = Outgoing::dispatch(4, "X".into(), "{}".into());
    assert_eq!((d.op, d.s, d.t), (op::DISPATCH, Some(4), Some("X".to_string())));
    let r = Outgoing::resumed(9);
    assert_eq!((r.op, r.s, r.t.as_deref(), r.d.as_str()), (op::DISPATCH, Some(9), Some("RESUMED"), "null"));
    assert_eq!(Outgoing::hello(41_250).d, "{\"heartbeat_interval\":41250}");
}

#[test]
fn emit_routes_local_and_remote() {
    let mut hub = Hub::new();
    let _tok = hub.attach(0xA, 100, 16, 0);
    hub.activate(0xA, 100);
    let payload = r#"{"user":{"id":"99"},"kind":"pending_in"}"#.to_string();
    let event = ServerEvent { t: "RELATIONSHIP_ADD".into(), d: payload.clone() };
    let local = hub.deliver(&[0xA, 0xB], &event);
    assert_eq!(local.len(), 1);
    assert_eq!(local[0].0, 100);
    assert_eq!(local[0].1.to_outgoing().t.as_deref(), Some("RELATIONSHIP_ADD"));
    assert_eq!(local[0].1.d, payload);
    let groups = group_remote_targets(&[(0xA, vec![1]), (0xB, vec![2])], 1);
    assert_eq!(groups, vec![(2, vec![0xB])]);
}

#[test]
fn offline_user_no_remote_send() {
    assert!(group_remote_targets(&[(0xDEAD, vec![])], 1).is_empty());
}

#[test]
fn remote_groups_follow_recipient_order() {
    let groups = group_remote_targets(&[(1, vec![3, 2]), (2, vec![2]), (3, vec![1, 3])], 1);
    assert_eq!(groups, vec![(3, vec![1, 3]), (2, vec![1, 2])]);
}

#[test]
fn checked_delivery_and_resume() {
    let mut a = Hub::new();
    let mut b = Hub::new();
    for h in [&mut a, &mut b] {
        let _ = h.attach(3, 30, 4, 0);
        h.activate(3, 30);
    }
    let plain = a.deliver(&[3, 3], &ev("x"));
    let checked = b.try_deliver(&[3, 3], &ev("x")).unwrap();
    assert_eq!(plain, checked);
    assert_eq!(checked.iter().map(|(_, f)| f.s).collect::<Vec<_>>(), vec![1, 2]);
    assert_eq!(b.session_seq(30), Some(2));
    assert_eq!(b.session_seq(31), None);
    assert!(b.resume_fits(30, "anything", 0, 0));
    assert!(b.resume_fits(31, "anything", u64::MAX, 0));
    assert!(b.try_deliver(&[9], &ev("y")).unwrap().is_empty());
}

#[test]
fn blank_is_what_trims_to_nothing() {
    for n in 0..=0x10FFFFu32 {
        if let Some(c) = char::from_u32(n) {
            assert_eq!(is_blank(&c.to_string()), c.is_whitespace(), "U+{n:04X}");
        }
    }
    for s in ["", "  \t\n", "\u{3000}\u{2029}", " a ", "\u{200B}", "x"] {
        assert_eq!(is_blank(s), s.trim().is_empty(), "{s:?}");
    }
}

#[test]
fn send_checks() {
    assert_eq!(check_send("42", "hi"), Ok(42));
    assert_eq!(check_send("x", "hi"), Err(SendRejection::InvalidChannelId));
    assert_eq!(check_send("x", "  "), Err(SendRejection::InvalidChannelId));
    assert_eq!(check_send("42", " \n "), Err(SendRejection::EmptyContent));
    assert_eq!(SendRejection::EmptyContent.message(), "empty content");
    assert_eq!(SendRejection::InvalidChannelId.status(), 400);
}

#[test]
fn only_members_with_send_permission_may_send() {
    let send = Permissions::from_bits_truncate(SEND_MESSAGES | VIEW_CHANNEL);
    let view = Permissions::from_bits_truncate(VIEW_CHANNEL);
    assert!(may_send(true, send));
    assert!(!may_send(false, send));
    assert!(!may_send(true, view));
}

#[test]
fn identify_names_the_token_user() {
    let keys = TokenKeys::generate().unwrap();
    let token = keys.issue_access(77).unwrap();
    let step = handshake_step(&keys, HandshakeInput::Identify(Some(IdentifyData { token: token.clone() })));
    assert_eq!(step, HandshakeStep::Done(Handshake::Identify { user_id: 77 }));
    let other = TokenKeys::generate().unwrap();
    let refused = handshake_step(&other, HandshakeInput::Identify(Some(IdentifyData { token })));
    assert_eq!(refused, HandshakeStep::Invalid);
}
