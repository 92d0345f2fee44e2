//! Opcodes of the gateway frames.

use vstd::prelude::*;

verus! {

pub const DISPATCH: u8 = 0;
pub const HEARTBEAT: u8 = 1;
pub const IDENTIFY: u8 = 2;
pub const PRESENCE_UPDATE: u8 = 3;
pub const VOICE_STATE_UPDATE: u8 = 4;
pub const RESUME: u8 = 6;
pub const INVALID_SESSION: u8 = 9;
pub const HELLO: u8 = 10;
pub const HEARTBEAT_ACK: u8 = 11;

} // verus!
