//! Plain stored entities and creation inputs, and the domain error types.

use vstd::prelude::*;
use crate::domain::id::{
    AttachmentId, ChannelId, MessageId, RealmId, RefreshTokenId, RoleId, UserId, WebhookId,
};

verus! {

/// A stored user.
#[derive(Clone, Debug, PartialEq, Eq)]
pub struct User {
    pub id: UserId,
    pub username: String,
    pub global_name: Option<String>,
    pub email: String,
    /// Argon2id PHC string; the plain password is never kept.
    pub password_hash: String,
    pub is_bot: bool,
}

/// Input for a new user.
#[derive(Clone, Debug)]
pub struct NewUser {
    pub id: UserId,
    pub username: String,
    pub email: String,
    pub password_hash: String,
}

/// A stored guild (summary).
#[derive(Clone, Debug, PartialEq, Eq)]
pub struct Guild {
    pub realm_id: RealmId,
    pub name: String,
    pub owner_id: UserId,
}

/// Input for a new guild; the realm id is minted by the caller.
#[derive(Clone, Debug)]
pub struct NewGuild {
    pub realm_id: RealmId,
    pub name: String,
    pub owner_id: UserId,
}

/// One member of one realm.
#[derive(Clone, Debug, PartialEq, Eq)]
pub struct Member {
    pub realm_id: RealmId,
    pub user_id: UserId,
    pub nick: Option<String>,
    /// Join time (unix seconds).
    pub joined_at: i64,
    /// Granted roles other than `@everyone`.
    pub roles: Vec<RoleId>,
}

/// A stored message.
#[derive(Clone, Debug, PartialEq, Eq)]
pub struct Message {
    pub id: MessageId,
    pub channel_id: ChannelId,
    pub realm_id: RealmId,
    pub author_id: UserId,
    pub content: String,
    /// Client idempotency key.
    pub nonce: Option<String>,
}

/// Input for a new message.
#[derive(Clone, Debug)]
pub struct NewMessage {
    pub id: MessageId,
    pub channel_id: ChannelId,
    pub realm_id: RealmId,
    pub author_id: UserId,
    pub content: String,
    pub nonce: Option<String>,
}

/// Read state of one (user, channel).
#[derive(Clone, Debug, PartialEq, Eq)]
pub struct ReadState {
    pub channel_id: ChannelId,
    /// Last message read; `None` when nothing was read yet.
    pub last_read_message_id: Option<MessageId>,
    /// Mentions after the last read message.
    pub mention_count: i32,
}

/// A stored refresh token (only its hash is kept).
#[derive(Clone, Debug, PartialEq, Eq)]
pub struct RefreshToken {
    pub id: RefreshTokenId,
    pub user_id: UserId,
}

/// Input for a new refresh token.
#[derive(Clone, Debug)]
pub struct NewRefreshToken {
    pub id: RefreshTokenId,
    pub user_id: UserId,
    /// SHA-256 of the token.
    pub token_hash: Vec<u8>,
    /// The token this one replaced, if it came from a rotation.
    pub rotated_from: Option<RefreshTokenId>,
    /// Expiry (unix seconds).
    pub expires_at_unix: i64,
}

/// A stored thread.
#[derive(Clone, Debug, PartialEq, Eq)]
pub struct Thread {
    pub id: ChannelId,
    pub realm_id: RealmId,
    pub parent_id: ChannelId,
    pub name: Option<String>,
    pub owner_id: Option<UserId>,
    pub archived: bool,
    pub auto_archive: i32,
    /// Live messages in the thread.
    pub message_count: i64,
}

/// Input for a new thread.
#[derive(Clone, Debug)]
pub struct NewThread {
    pub id: ChannelId,
    pub realm_id: RealmId,
    pub parent_id: ChannelId,
    pub name: String,
    pub owner: UserId,
    /// Auto-archive delay in minutes.
    pub auto_archive: i32,
}

/// Input for storing a WebAuthn credential after registration.
#[derive(Clone, Debug)]
pub struct NewWebAuthnCredential {
    pub id: u64,
    pub user_id: UserId,
    pub credential_id: Vec<u8>,
    /// The serialised passkey (opaque).
    pub passkey_json: String,
}

/// A stored WebAuthn credential.
#[derive(Clone, Debug, PartialEq, Eq)]
pub struct WebAuthnCredential {
    pub credential_id: Vec<u8>,
    pub passkey_json: String,
}

/// A stored webhook.
#[derive(Clone, Debug, PartialEq, Eq)]
pub struct Webhook {
    pub id: WebhookId,
    pub channel_id: ChannelId,
    pub realm_id: RealmId,
    pub name: String,
    pub creator_id: Option<UserId>,
    /// SHA-256 of the webhook token.
    pub token_hash: Vec<u8>,
}

/// Input for a new webhook.
#[derive(Clone, Debug)]
pub struct NewWebhook {
    pub id: WebhookId,
    pub channel_id: ChannelId,
    pub realm_id: RealmId,
    pub name: String,
    pub creator_id: UserId,
    pub token_hash: Vec<u8>,
}

/// Stored attachment metadata; the bytes live in a blob store.
#[derive(Clone, Debug, PartialEq, Eq)]
pub struct Attachment {
    pub id: AttachmentId,
    pub message_id: MessageId,
    pub filename: String,
    pub size_bytes: i64,
    pub content_type: Option<String>,
    pub url: String,
}

/// Input for a new attachment.
#[derive(Clone, Debug)]
pub struct NewAttachment {
    pub id: AttachmentId,
    pub message_id: MessageId,
    pub filename: String,
    pub size_bytes: i64,
    pub content_type: Option<String>,
    pub url: String,
}

/// Blob store failure.
#[derive(Debug)]
pub enum BlobError {
    Backend(String),
}

/// Domain error.
#[derive(Debug, PartialEq, Eq)]
pub enum DomainError {
    PermissionDenied,
    NotFound,
    Invalid(String),
}

/// Repository failure.
#[derive(Debug)]
pub enum RepoError {
    /// A unique constraint was violated.
    Conflict,
    Backend(String),
}

} // verus!
