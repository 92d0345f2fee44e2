//! The checks of a message sent over REST before it is routed: the channel id
//! in the path must be a number and the content must not be blank.

use vstd::prelude::*;
use vstd::std_specs::iter::IteratorSpec;
use vstd::string::StringSliceAdditionalSpecFns;
use crate::domain::permissions::{Permissions, SEND_MESSAGES};
use crate::text::{parse_uint, parse_uint_spec};

verus! {

/// Whether `c` has the Unicode `White_Space` property (what
/// `char::is_whitespace` tests).
pub open spec fn white_space(c: char) -> bool {
    let n = c as u32;
    ||| 0x9 <= n <= 0xD
    ||| n == 0x20
    ||| n == 0x85
    ||| n == 0xA0
    ||| n == 0x1680
    ||| 0x2000 <= n <= 0x200A
    ||| n == 0x2028
    ||| n == 0x2029
    ||| n == 0x202F
    ||| n == 0x205F
    ||| n == 0x3000
}

/// Text with nothing but white space (it trims to nothing).
pub open spec fn blank(s: Seq<char>) -> bool {
    forall|i: int| 0 <= i < s.len() ==> white_space(#[trigger] s[i])
}

fn is_white_space(c: char) -> (r: bool)
    ensures
        r == white_space(c),
{
    let n = c as u32;
    (0x9 <= n && n <= 0xD) || n == 0x20 || n == 0x85 || n == 0xA0 || n == 0x1680 || (0x2000 <= n && n <= 0x200A)
        || n == 0x2028 || n == 0x2029 || n == 0x202F || n == 0x205F || n == 0x3000
}

/// Whether the text trims to nothing.
pub fn is_blank(s: &str) -> (r: bool)
    ensures
        r == blank(s@),
{
    let mut it = s.chars();
    let ghost mut k: int = 0;
    proof {
        assert(s@.skip(0) =~= s@);
    }
    loop
        invariant
            0 <= k <= s@.len(),
            it.remaining() == s@.skip(k),
            it.obeys_prophetic_iter_laws(),
            forall|j: int| 0 <= j < k ==> white_space(#[trigger] s@[j]),
        decreases s@.len() - k,
    {
        match it.next() {
            None => {
                return true;
            },
            Some(c) => {
                assert(c == s@[k]);
                if !is_white_space(c) {
                    return false;
                }
                proof {
                    assert(s@.skip(k).drop_first() =~= s@.skip(k + 1));
                    k = k + 1;
                }
            },
        }
    }
}

/// Why a sent message was refused before routing.
#[derive(Clone, Copy, Debug, PartialEq, Eq)]
pub enum SendRejection {
    /// The channel id is not a number.
    InvalidChannelId,
    /// The content is blank.
    EmptyContent,
}

/// The text of a refusal (each is a bad request, status 400).
pub open spec fn rejection_text(r: SendRejection) -> Seq<char> {
    match r {
        SendRejection::InvalidChannelId => "invalid channel id"@,
        SendRejection::EmptyContent => "empty content"@,
    }
}

impl SendRejection {
    pub fn status(self) -> (s: u16)
        ensures
            s == 400,
    {
        400
    }

    pub fn message(self) -> (m: &'static str)
        ensures
            m@ == rejection_text(self),
    {
        match self {
            SendRejection::InvalidChannelId => "invalid channel id",
            SendRejection::EmptyContent => "empty content",
        }
    }
}

/// Checks a sent message: the channel id (decimal text) first, then that
/// the content is not blank; the channel id on success.
pub fn check_send(channel_id: &str, content: &str) -> (r: Result<u64, SendRejection>)
    ensures
        match parse_uint_spec(channel_id.spec_bytes(), u64::MAX as int) {
            Err(_) => r == Err::<u64, SendRejection>(SendRejection::InvalidChannelId),
            Ok(id) => if blank(content@) {
                r == Err::<u64, SendRejection>(SendRejection::EmptyContent)
            } else {
                r == Ok::<u64, SendRejection>(id as u64)
            },
        },
{
    let id = match parse_uint(channel_id, u64::MAX) {
        Ok(v) => v,
        Err(_) => return Err(SendRejection::InvalidChannelId),
    };
    if is_blank(content) {
        return Err(SendRejection::EmptyContent);
    }
    Ok(id)
}

/// Whether a user may post in a channel: a member of its realm whose
/// effective permissions in the channel hold `SEND_MESSAGES`. A non-member
/// never may, whatever the permissions.
pub fn may_send(is_member: bool, perms: Permissions) -> (r: bool)
    ensures
        r == (is_member && perms@ & SEND_MESSAGES == SEND_MESSAGES),
{
    if !is_member {
        return false;
    }
    let send = Permissions::from_bits_truncate(SEND_MESSAGES);
    assert(0x800u64 & 0x4c_7df7_fcffu64 == 0x800u64) by (bit_vector);
    perms.contains(send)
}

} // verus!
