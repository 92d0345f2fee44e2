//! Channel entity and channel kinds.

use vstd::prelude::*;
use crate::domain::id::{ChannelId, RealmId};
use crate::text::str_eq;

verus! {

/// Channel kind (the storage `channel_kind` enum).
#[derive(Clone, Copy, Debug, PartialEq, Eq)]
pub enum ChannelKind {
    Text,
    Voice,
    Category,
    Announcement,
    Forum,
    Thread,
    Dm,
}

/// The stored name of a channel kind.
pub open spec fn channel_kind_name(k: ChannelKind) -> Seq<char> {
    match k {
        ChannelKind::Text => "text"@,
        ChannelKind::Voice => "voice"@,
        ChannelKind::Category => "category"@,
        ChannelKind::Announcement => "announcement"@,
        ChannelKind::Forum => "forum"@,
        ChannelKind::Thread => "thread"@,
        ChannelKind::Dm => "dm"@,
    }
}

/// The kind whose stored name is `s`, if any.
pub open spec fn channel_kind_of(s: Seq<char>) -> Option<ChannelKind> {
    if s == "text"@ {
        Some(ChannelKind::Text)
    } else if s == "voice"@ {
        Some(ChannelKind::Voice)
    } else if s == "category"@ {
        Some(ChannelKind::Category)
    } else if s == "announcement"@ {
        Some(ChannelKind::Announcement)
    } else if s == "forum"@ {
        Some(ChannelKind::Forum)
    } else if s == "thread"@ {
        Some(ChannelKind::Thread)
    } else if s == "dm"@ {
        Some(ChannelKind::Dm)
    } else {
        None
    }
}

impl ChannelKind {
    pub fn as_str(self) -> (s: &'static str)
        ensures
            s@ == channel_kind_name(self),
    {
        match self {
            ChannelKind::Text => "text",
            ChannelKind::Voice => "voice",
            ChannelKind::Category => "category",
            ChannelKind::Announcement => "announcement",
            ChannelKind::Forum => "forum",
            ChannelKind::Thread => "thread",
            ChannelKind::Dm => "dm",
        }
    }

    pub fn parse(s: &str) -> (k: Option<Self>)
        ensures
            k == channel_kind_of(s@),
    {
        if str_eq(s, "text") {
            Some(ChannelKind::Text)
        } else if str_eq(s, "voice") {
            Some(ChannelKind::Voice)
        } else if str_eq(s, "category") {
            Some(ChannelKind::Category)
        } else if str_eq(s, "announcement") {
            Some(ChannelKind::Announcement)
        } else if str_eq(s, "forum") {
            Some(ChannelKind::Forum)
        } else if str_eq(s, "thread") {
            Some(ChannelKind::Thread)
        } else if str_eq(s, "dm") {
            Some(ChannelKind::Dm)
        } else {
            None
        }
    }
}

/// Parsing the stored name of a kind gives the kind back.
pub proof fn lemma_channel_kind_round_trip(k: ChannelKind)
    ensures
        channel_kind_of(channel_kind_name(k)) == Some(k),
{
    reveal_strlit("text");
    reveal_strlit("voice");
    reveal_strlit("category");
    reveal_strlit("announcement");
    reveal_strlit("forum");
    reveal_strlit("thread");
    reveal_strlit("dm");
    assert("text"@[0] == 't' && "text"@.len() == 4);
    assert("voice"@[0] == 'v');
    assert("category"@[0] == 'c');
    assert("announcement"@[0] == 'a');
    assert("forum"@[0] == 'f');
    assert("thread"@[0] == 't' && "thread"@.len() == 6);
    assert("dm"@[0] == 'd');
}

/// A stored channel.
#[derive(Clone, Debug, PartialEq, Eq)]
pub struct Channel {
    pub id: ChannelId,
    pub realm_id: RealmId,
    pub kind: ChannelKind,
    pub name: Option<String>,
    pub position: i32,
}

/// Input for creating a channel.
#[derive(Clone, Debug)]
pub struct NewChannel {
    pub id: ChannelId,
    pub realm_id: RealmId,
    pub kind: ChannelKind,
    pub name: String,
}

} // verus!
