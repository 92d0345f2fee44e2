//! The gateway's JSON frames `{ op, d, s?, t? }`. Payloads are held here as
//! JSON text; the socket edge turns frames into and out of JSON.

pub mod op;

use vstd::prelude::*;
use crate::text::{concat_str, decimal_string, decimal_text};

verus! {

/// IDENTIFY payload: an access token.
#[derive(Clone, Debug, PartialEq, Eq)]
pub struct IdentifyData {
    pub token: String,
}

/// RESUME payload: the session id (decimal text, as READY gave it), its
/// resume token and the last dispatch number the client received.
#[derive(Clone, Debug, PartialEq, Eq)]
pub struct ResumeData {
    pub session_id: String,
    pub token: String,
    pub seq: u64,
}

/// A logical event to dispatch: its name and payload (JSON text); each
/// session numbers it in its own stream.
#[derive(Clone, Debug, PartialEq, Eq)]
pub struct ServerEvent {
    pub t: String,
    pub d: String,
}

/// A frame from the server. Only dispatches carry a number and a name.
#[derive(Clone, Debug, PartialEq, Eq)]
pub struct Outgoing {
    pub op: u8,
    /// The payload, as JSON text.
    pub d: String,
    pub s: Option<u64>,
    pub t: Option<String>,
}

impl Outgoing {
    /// A control frame.
    pub fn control(op: u8, d: String) -> (f: Outgoing)
        ensures
            f.op == op,
            f.d == d,
            f.s is None,
            f.t is None,
    {
        Outgoing { op, d, s: None, t: None }
    }

    /// HELLO, with the heartbeat interval to keep.
    pub fn hello(heartbeat_interval_ms: u64) -> (f: Outgoing)
        ensures
            f.op == op::HELLO,
            f.d@ == "{\"heartbeat_interval\":"@ + decimal_text(heartbeat_interval_ms as nat) + "}"@,
            f.s is None,
            f.t is None,
    {
        let d = concat_str(
            concat_str("{\"heartbeat_interval\":".to_owned(), decimal_string(heartbeat_interval_ms).as_str()),
            "}",
        );
        Outgoing::control(op::HELLO, d)
    }

    /// HEARTBEAT_ACK.
    pub fn heartbeat_ack() -> (f: Outgoing)
        ensures
            f.op == op::HEARTBEAT_ACK,
            f.d@ == "null"@,
            f.s is None,
            f.t is None,
    {
        Outgoing::control(op::HEARTBEAT_ACK, "null".to_owned())
    }

    /// INVALID_SESSION (not resumable).
    pub fn invalid_session() -> (f: Outgoing)
        ensures
            f.op == op::INVALID_SESSION,
            f.d@ == "false"@,
            f.s is None,
            f.t is None,
    {
        Outgoing::control(op::INVALID_SESSION, "false".to_owned())
    }

    /// A dispatch: event `t` numbered `seq` in the session's stream.
    pub fn dispatch(seq: u64, t: String, d: String) -> (f: Outgoing)
        ensures
            f.op == op::DISPATCH,
            f.d == d,
            f.s == Some(seq),
            f.t == Some(t),
    {
        Outgoing { op: op::DISPATCH, d, s: Some(seq), t: Some(t) }
    }

    /// RESUMED: the replay is over; carries the session's last number (it is
    /// not a new event, so nothing is numbered or buffered for it).
    pub fn resumed(last_seq: u64) -> (f: Outgoing)
        ensures
            f.op == op::DISPATCH,
            f.d@ == "null"@,
            f.s == Some(last_seq),
            f.t matches Some(t) && t@ == "RESUMED"@,
    {
        Outgoing { op: op::DISPATCH, d: "null".to_owned(), s: Some(last_seq), t: Some("RESUMED".to_owned()) }
    }
}

} // verus!
