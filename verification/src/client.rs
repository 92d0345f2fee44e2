//! What the command-line client reads back from the REST API. The client
//! itself (HTTP and JSON) lives outside the library.

use vstd::prelude::*;

verus! {

#[derive(Clone, Debug, PartialEq, Eq)]
pub struct AuthResponse {
    pub user_id: String,
    pub access_token: String,
    pub refresh_token: String,
}

#[derive(Clone, Debug, PartialEq, Eq)]
pub struct ChannelView {
    pub id: String,
    pub name: Option<String>,
    pub kind: String,
}

#[derive(Clone, Debug, PartialEq, Eq)]
pub struct GuildView {
    pub id: String,
    pub name: String,
    pub channels: Vec<ChannelView>,
}

#[derive(Clone, Debug, PartialEq, Eq)]
pub struct InviteView {
    pub code: String,
    pub realm_id: String,
    pub max_uses: i32,
    pub expires_at: Option<i64>,
}

#[derive(Clone, Debug, PartialEq, Eq)]
pub struct JoinView {
    pub realm_id: String,
    pub channels: Vec<ChannelEntry>,
}

#[derive(Clone, Debug, PartialEq, Eq)]
pub struct ChannelEntry {
    pub id: String,
    pub name: Option<String>,
}

/// A login either gives tokens or asks for the second factor.
#[derive(Clone, Debug, PartialEq, Eq)]
pub enum LoginOutcome {
    Tokens(AuthResponse),
    MfaRequired,
}

#[derive(Clone, Debug, PartialEq, Eq)]
pub struct MfaEnableView {
    pub secret: String,
    pub otpauth_uri: String,
}

#[derive(Clone, Debug, PartialEq, Eq)]
pub struct RoleView {
    pub id: String,
    pub name: String,
    pub permissions: String,
    pub position: i32,
}

#[derive(Clone, Debug, PartialEq, Eq)]
pub struct ThreadView {
    pub id: String,
    pub parent_id: String,
    pub name: Option<String>,
    pub owner_id: Option<String>,
    pub archived: bool,
    pub message_count: i64,
}

#[derive(Clone, Debug, PartialEq, Eq)]
pub struct MemberView {
    pub user_id: String,
    pub nick: Option<String>,
    pub joined_at: i64,
    pub roles: Vec<String>,
}

#[derive(Clone, Debug, PartialEq, Eq)]
pub struct MessageView {
    pub id: String,
    pub channel_id: String,
    pub author_id: String,
    pub content: String,
}

#[derive(Clone, Debug, PartialEq, Eq)]
pub struct DmChannelView {
    pub id: String,
    pub realm_id: String,
    pub kind: String,
    pub recipients: Vec<String>,
}

#[derive(Clone, Debug, PartialEq, Eq)]
pub struct RelationshipView {
    pub user_id: String,
    pub kind: String,
}

#[derive(Clone, Debug, PartialEq, Eq)]
pub struct ReadStateView {
    pub channel_id: String,
    pub last_read_message_id: Option<String>,
    pub mention_count: i32,
}

#[derive(Clone, Debug, PartialEq, Eq)]
pub struct AttachmentView {
    pub id: String,
    pub filename: String,
    pub size_bytes: i64,
    pub url: String,
}

#[derive(Clone, Debug, PartialEq, Eq)]
pub struct AuditEntryView {
    pub id: String,
    pub actor_id: Option<String>,
    pub action_type: i16,
    pub target_id: Option<String>,
}

#[derive(Clone, Debug, PartialEq, Eq)]
pub struct WebhookView {
    pub id: String,
    pub name: String,
    pub token: Option<String>,
}

} // verus!
