use std::collections::{BTreeMap, BTreeSet};

use backend::domain::audit::AuditAction;
use backend::domain::channel::ChannelKind;
use backend::domain::dm::{order_pair, RealmKind};
use backend::domain::event::{RealmEventKind, RealmEventRecord, RealmProjection};
use backend::domain::id::{ChannelId, MessageId, RealmId, RoleId, Snowflake, SnowflakeGenerator, UserId, EPOCH_MS};
use backend::domain::invite::Invite;
use backend::domain::mention::parse_mentions;
use backend::domain::permissions::{
    compute_channel_permissions, Overwrite, Permissions, ADMINISTRATOR, MANAGE_ROLES, SEND_MESSAGES,
    VIEW_CHANNEL,
};
use backend::domain::relationship::RelationKind;
use backend::domain::role::Role;

fn uid(n: u64) -> UserId {
    UserId(Snowflake::from_raw(n))
}
fn mid(n: u64) -> MessageId {
    MessageId(Snowflake::from_raw(n))
}
fn cid(n: u64) -> ChannelId {
    ChannelId(Snowflake::from_raw(n))
}
fn rec(seq: u64, kind: RealmEventKind) -> RealmEventRecord {
    RealmEventRecord { realm_id: RealmId(Snowflake::from_raw(1)), seq, kind }
}

// ---- id ----

#[test]
fn monotonic_within_same_ms() {
    let mut g = SnowflakeGenerator::new(7);
    let a = g.next(EPOCH_MS + 5);
    let b = g.next(EPOCH_MS + 5);
    assert!(b > a);
    assert_eq!(a.worker(), 7);
    assert_eq!(a.timestamp_ms(), EPOCH_MS + 5);
    assert_eq!(b.sequence(), a.sequence() + 1);
}

#[test]
fn sequence_resets_on_new_ms() {
    let mut g = SnowflakeGenerator::new(1);
    let a = g.next(EPOCH_MS + 1);
    let b = g.next(EPOCH_MS + 2);
    assert!(b > a);
    assert_eq!(b.sequence(), 0);
}

#[test]
fn backwards_clock_stays_monotonic() {
    let mut g = SnowflakeGenerator::new(3);
    let a = g.next(EPOCH_MS + 100);
    let b = g.next(EPOCH_MS + 50);
    assert!(b > a, "a clock going back must not make ids go back");
}

#[test]
fn snowflake_fields_pack_and_unpack() {
    let mut g = SnowflakeGenerator::new(1023);
    let a = g.next(EPOCH_MS + 12345);
    assert_eq!(a.worker(), 1023);
    assert_eq!(a.timestamp_ms(), EPOCH_MS + 12345);
    assert_eq!(a.sequence(), 0);
    assert_eq!(a.raw(), (12345u64 << 22) | (1023u64 << 12));
    assert_eq!(Snowflake::from_raw(a.raw()), a);
}

#[test]
fn sequence_overflow_moves_to_next_ms() {
    let mut g = SnowflakeGenerator::new(2);
    let mut last = g.next(EPOCH_MS + 10);
    for _ in 0..5000 {
        let n = g.next(EPOCH_MS + 10);
        assert!(n > last);
        last = n;
    }
    assert!(last.timestamp_ms() > EPOCH_MS + 10);
}

#[test]
fn clock_before_epoch_counts_as_epoch() {
    let mut g = SnowflakeGenerator::new(4);
    let a = g.next(5);
    assert_eq!(a.timestamp_ms(), EPOCH_MS);
    // The generator starts at the epoch, so this is a second id in that ms.
    assert_eq!(a.sequence(), 1);
}

// ---- event ----

#[test]
fn projection_folds_message_and_member_events() {
    let log = vec![
        rec(1, RealmEventKind::MemberJoined { user: uid(10) }),
        rec(2, RealmEventKind::MemberJoined { user: uid(20) }),
        rec(3, RealmEventKind::MessageCreated { message_id: mid(100), channel_id: cid(5), author: uid(10) }),
        rec(4, RealmEventKind::MessageCreated { message_id: mid(200), channel_id: cid(5), author: uid(20) }),
        rec(5, RealmEventKind::MessageDeleted { message_id: mid(100), channel_id: cid(5) }),
        rec(6, RealmEventKind::MemberLeft { user: uid(10) }),
    ];
    let p = RealmProjection::replay(&log);
    assert_eq!(p.members, BTreeSet::from([20]));
    assert_eq!(p.message_count, 1);
    assert_eq!(p.last_message_id, Some(200));
    assert_eq!(p.last_message_by_channel, BTreeMap::from([(5, 200)]));
    assert_eq!(p.last_seq, 6);
}

#[test]
fn replay_is_deterministic() {
    let log = vec![
        rec(1, RealmEventKind::MessageCreated { message_id: mid(1), channel_id: cid(1), author: uid(1) }),
        rec(2, RealmEventKind::MemberJoined { user: uid(2) }),
    ];
    assert_eq!(RealmProjection::replay(&log), RealmProjection::replay(&log));
}

#[test]
fn incremental_replay_matches_full() {
    let head = vec![rec(1, RealmEventKind::MemberJoined { user: uid(1) })];
    let tail = vec![rec(2, RealmEventKind::MessageCreated { message_id: mid(9), channel_id: cid(1), author: uid(1) })];
    let mut incremental = RealmProjection::replay(&head);
    for r in &tail {
        incremental.apply_record(r);
    }
    let full = RealmProjection::replay(&[head, tail].concat());
    assert_eq!(incremental, full);
}

#[test]
fn delete_never_underflows() {
    let p = RealmProjection::replay(&[rec(1, RealmEventKind::MessageDeleted { message_id: mid(1), channel_id: cid(1) })]);
    assert_eq!(p.message_count, 0);
}

#[test]
fn last_message_per_channel_keeps_the_largest_id() {
    let log = vec![
        rec(1, RealmEventKind::MessageCreated { message_id: mid(300), channel_id: cid(1), author: uid(1) }),
        rec(2, RealmEventKind::MessageCreated { message_id: mid(100), channel_id: cid(1), author: uid(1) }),
        rec(3, RealmEventKind::MessageCreated { message_id: mid(50), channel_id: cid(2), author: uid(1) }),
    ];
    let p = RealmProjection::replay(&log);
    assert_eq!(p.last_message_id, Some(300));
    assert_eq!(p.last_message_by_channel, BTreeMap::from([(1, 300), (2, 50)]));
    assert_eq!(p.message_count, 3);
}

#[test]
fn event_codes_are_stable() {
    assert_eq!(RealmEventKind::MessageCreated { message_id: mid(1), channel_id: cid(1), author: uid(1) }.code(), 1);
    assert_eq!(RealmEventKind::MessageDeleted { message_id: mid(1), channel_id: cid(1) }.code(), 2);
    assert_eq!(RealmEventKind::MemberJoined { user: uid(1) }.code(), 3);
    assert_eq!(RealmEventKind::MemberLeft { user: uid(1) }.code(), 4);
}

// ---- dm ----

#[test]
fn order_pair_is_symmetric_and_sorted() {
    let (lo1, hi1) = order_pair(uid(10), uid(3));
    let (lo2, hi2) = order_pair(uid(3), uid(10));
    assert_eq!((lo1, hi1), (uid(3), uid(10)));
    assert_eq!((lo1, hi1), (lo2, hi2));
}

#[test]
fn realm_kind_round_trips() {
    for k in [RealmKind::Guild, RealmKind::Dm, RealmKind::GroupDm] {
        assert_eq!(RealmKind::parse(k.as_str()), Some(k));
    }
    assert_eq!(RealmKind::parse("nope"), None);
}

// ---- invite ----

fn inv(uses: i32, max_uses: i32, expires_at: Option<i64>) -> Invite {
    Invite {
        code: "abc".into(),
        realm_id: RealmId(Snowflake::from_raw(1)),
        channel_id: None,
        inviter_id: None,
        uses,
        max_uses,
        expires_at,
    }
}

#[test]
fn unlimited_invite_always_valid() {
    assert!(inv(100, 0, None).is_valid(1_000));
}

#[test]
fn exhausted_and_expired_are_invalid() {
    assert!(!inv(5, 5, None).is_valid(1_000));
    assert!(!inv(0, 0, Some(500)).is_valid(1_000));
    assert!(inv(0, 0, Some(2_000)).is_valid(1_000));
}

#[test]
fn invite_expiry_is_exclusive() {
    assert!(!inv(0, 0, Some(1_000)).is_valid(1_000));
    assert!(inv(4, 5, Some(1_001)).is_valid(1_000));
}

// ---- mention ----

#[test]
fn parses_plain_and_nick_mentions() {
    assert_eq!(parse_mentions("hi <@10> and <@!20>!"), vec![uid(10), uid(20)]);
}

#[test]
fn dedups_and_keeps_order() {
    assert_eq!(parse_mentions("<@5> <@3> <@5>"), vec![uid(5), uid(3)]);
}

#[test]
fn ignores_malformed_and_role_mentions() {
    assert!(parse_mentions("no mentions here").is_empty());
    assert!(parse_mentions("<@> <@abc> <@&99> <@12").is_empty());
}

#[test]
fn handles_unicode_around_tokens() {
    assert_eq!(parse_mentions("안녕 <@7> 반가워"), vec![uid(7)]);
}

#[test]
fn mention_too_large_for_u64_is_ignored() {
    assert!(parse_mentions("<@99999999999999999999>").is_empty());
    assert_eq!(parse_mentions("<@18446744073709551615>"), vec![uid(u64::MAX)]);
}

// ---- permissions ----

fn flag(bits: u64) -> Permissions {
    Permissions::from_bits_truncate(bits)
}

#[test]
fn owner_and_admin_bypass_overrides() {
    let all = Permissions::all();
    assert_eq!(
        compute_channel_permissions(true, Permissions::empty(), &[], Overwrite::default(), &[], Overwrite::default()),
        all
    );
    let deny_all = Overwrite { allow: Permissions::empty(), deny: Permissions::all() };
    assert_eq!(
        compute_channel_permissions(false, flag(ADMINISTRATOR), &[], deny_all, &[], Overwrite::default()),
        all
    );
}

#[test]
fn member_overwrite_has_highest_precedence() {
    let everyone = flag(SEND_MESSAGES) | flag(VIEW_CHANNEL);
    let member_ow = Overwrite { allow: Permissions::empty(), deny: flag(SEND_MESSAGES) };
    let p = compute_channel_permissions(false, everyone, &[], Overwrite::default(), &[], member_ow);
    assert!(p.contains(flag(VIEW_CHANNEL)));
    assert!(!p.contains(flag(SEND_MESSAGES)));
}

#[test]
fn role_overwrites_deny_then_allow() {
    let everyone = flag(VIEW_CHANNEL);
    let roles = [flag(SEND_MESSAGES)];
    let role_ows = [
        Overwrite { allow: Permissions::empty(), deny: flag(SEND_MESSAGES) },
        Overwrite { allow: flag(SEND_MESSAGES), deny: Permissions::empty() },
    ];
    let p = compute_channel_permissions(false, everyone, &roles, Overwrite::default(), &role_ows, Overwrite::default());
    assert!(p.contains(flag(SEND_MESSAGES)), "an allow among the role overwrites beats a deny among them");
    assert_eq!(p.bits(), SEND_MESSAGES | VIEW_CHANNEL);
}

#[test]
fn role_with_administrator_grants_all() {
    let p = compute_channel_permissions(
        false,
        Permissions::empty(),
        &[flag(ADMINISTRATOR | MANAGE_ROLES)],
        Overwrite::default(),
        &[],
        Overwrite { allow: Permissions::empty(), deny: Permissions::all() },
    );
    assert_eq!(p, Permissions::all());
}

#[test]
fn undefined_bits_are_dropped() {
    assert_eq!(Permissions::from_bits_truncate(1 << 9).bits(), 0);
    assert_eq!(Permissions::from_bits_truncate(u64::MAX), Permissions::all());
}

// ---- relationship, channel, audit, role ----

#[test]
fn kind_round_trips() {
    for k in [RelationKind::Friend, RelationKind::PendingIn, RelationKind::PendingOut, RelationKind::Blocked] {
        assert_eq!(RelationKind::parse(k.as_str()), Some(k));
    }
    assert_eq!(RelationKind::parse("nope"), None);
}

#[test]
fn mirror_flips_pending_only() {
    assert_eq!(RelationKind::PendingOut.mirror(), RelationKind::PendingIn);
    assert_eq!(RelationKind::PendingIn.mirror(), RelationKind::PendingOut);
    assert_eq!(RelationKind::Friend.mirror(), RelationKind::Friend);
    assert_eq!(RelationKind::Blocked.mirror(), RelationKind::Blocked);
}

#[test]
fn channel_kind_round_trips() {
    for k in [
        ChannelKind::Text,
        ChannelKind::Voice,
        ChannelKind::Category,
        ChannelKind::Announcement,
        ChannelKind::Forum,
        ChannelKind::Thread,
        ChannelKind::Dm,
    ] {
        assert_eq!(ChannelKind::parse(k.as_str()), Some(k));
    }
    assert_eq!(ChannelKind::parse("TEXT"), None);
}

#[test]
fn audit_codes_round_trip() {
    for a in [
        AuditAction::ChannelCreate,
        AuditAction::RoleCreate,
        AuditAction::MemberRoleUpdate,
        AuditAction::MemberNickUpdate,
        AuditAction::MemberKick,
        AuditAction::WebhookCreate,
        AuditAction::WebhookDelete,
    ] {
        assert_eq!(AuditAction::from_code(a.code()), Some(a));
    }
    assert_eq!(AuditAction::from_code(0), None);
}

#[test]
fn everyone_role_has_the_realm_id() {
    let role = |id: u64| Role {
        id: RoleId(Snowflake::from_raw(id)),
        realm_id: RealmId(Snowflake::from_raw(42)),
        name: "r".to_string(),
        permissions: Permissions::empty(),
        position: 0,
    };
    assert!(role(42).is_everyone());
    assert!(!role(43).is_everyone());
}

#[test]
fn minting_is_unique_per_generator_and_across_workers() {
    let mut a = SnowflakeGenerator::new(5);
    let mut b = SnowflakeGenerator::new(6);
    let mut seen = BTreeSet::new();
    for _ in 0..20_000 {
        assert!(seen.insert(a.next(EPOCH_MS + 1).raw()));
        assert!(seen.insert(b.next(EPOCH_MS + 1).raw()));
    }
    assert_eq!(seen.len(), 40_000);
}

#[test]
fn created_messages_fold_in_either_order() {
    let e1 = RealmEventKind::MessageCreated { message_id: mid(30), channel_id: cid(1), author: uid(1) };
    let e2 = RealmEventKind::MessageCreated { message_id: mid(20), channel_id: cid(1), author: uid(2) };
    let mut p = RealmProjection::new();
    p.apply(&e1);
    p.apply(&e2);
    let mut q = RealmProjection::new();
    q.apply(&e2);
    q.apply(&e1);
    assert_eq!(p, q);
    assert_eq!(p.message_count, 2);
    assert_eq!(p.last_message_id, Some(30));
}

#[test]
fn overwrite_apply_is_idempotent() {
    let p = Permissions::from_bits_truncate(SEND_MESSAGES | VIEW_CHANNEL);
    let ow = Overwrite {
        allow: Permissions::from_bits_truncate(MANAGE_ROLES),
        deny: Permissions::from_bits_truncate(SEND_MESSAGES),
    };
    let once = p.apply(ow);
    assert_eq!(once.apply(ow), once);
    assert!(once.contains(ow.allow));
    assert!(!once.contains(Permissions::from_bits_truncate(SEND_MESSAGES)));
    assert!(once.contains(Permissions::from_bits_truncate(VIEW_CHANNEL)));
}

#[test]
fn role_overwrites_are_pooled() {
    let everyone = Permissions::from_bits_truncate(VIEW_CHANNEL);
    let deny_send = Overwrite { allow: Permissions::empty(), deny: Permissions::from_bits_truncate(SEND_MESSAGES) };
    let allow_send = Overwrite { allow: Permissions::from_bits_truncate(SEND_MESSAGES), deny: Permissions::empty() };
    let p = compute_channel_permissions(
        false,
        everyone,
        &[],
        Overwrite::default(),
        &[deny_send, allow_send],
        Overwrite::default(),
    );
    assert!(p.contains(Permissions::from_bits_truncate(SEND_MESSAGES)));
    let q = compute_channel_permissions(
        false,
        Permissions::from_bits_truncate(VIEW_CHANNEL | SEND_MESSAGES),
        &[],
        Overwrite::default(),
        &[deny_send],
        Overwrite::default(),
    );
    assert!(!q.contains(Permissions::from_bits_truncate(SEND_MESSAGES)));
}
