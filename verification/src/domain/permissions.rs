//! Permission bit masks and the channel-context permission computation.
//!
//! A member's effective permissions in a channel are computed in a fixed order:
//! the owner and administrators bypass everything; otherwise the `@everyone`
//! permissions and the member's roles are united, then the `@everyone` channel
//! overwrite, the united role overwrites (deny, then allow) and finally the
//! member's own overwrite are applied.

use vstd::prelude::*;

verus! {

pub const CREATE_INVITE: u64 = 0x1;
pub const KICK_MEMBERS: u64 = 0x2;
pub const BAN_MEMBERS: u64 = 0x4;
pub const ADMINISTRATOR: u64 = 0x8;
pub const MANAGE_CHANNELS: u64 = 0x10;
pub const MANAGE_GUILD: u64 = 0x20;
pub const ADD_REACTIONS: u64 = 0x40;
pub const VIEW_AUDIT_LOG: u64 = 0x80;
pub const VIEW_CHANNEL: u64 = 0x400;
pub const SEND_MESSAGES: u64 = 0x800;
pub const SEND_TTS_MESSAGES: u64 = 0x1000;
pub const MANAGE_MESSAGES: u64 = 0x2000;
pub const EMBED_LINKS: u64 = 0x4000;
pub const ATTACH_FILES: u64 = 0x8000;
pub const READ_MESSAGE_HISTORY: u64 = 0x10000;
pub const MENTION_EVERYONE: u64 = 0x20000;
pub const USE_EXTERNAL_EMOJIS: u64 = 0x40000;
/// Voice permissions: only the layout is defined.
pub const CONNECT: u64 = 0x100000;
pub const SPEAK: u64 = 0x200000;
pub const MUTE_MEMBERS: u64 = 0x400000;
pub const DEAFEN_MEMBERS: u64 = 0x800000;
pub const MOVE_MEMBERS: u64 = 0x1000000;
pub const CHANGE_NICKNAME: u64 = 0x4000000;
pub const MANAGE_NICKNAMES: u64 = 0x8000000;
pub const MANAGE_ROLES: u64 = 0x10000000;
pub const MANAGE_WEBHOOKS: u64 = 0x20000000;
pub const MANAGE_EXPRESSIONS: u64 = 0x40000000;
pub const MANAGE_THREADS: u64 = 0x400000000;
pub const CREATE_PUBLIC_THREADS: u64 = 0x800000000;
pub const SEND_MESSAGES_IN_THREADS: u64 = 0x4000000000;

/// Union of every defined flag.
pub const ALL_BITS: u64 = 0x4c_7df7_fcffu64;

/// A set of permission flags. Only defined flags are ever set.
#[derive(Clone, Copy, PartialEq, Eq, Debug)]
pub struct Permissions {
    bits: u64,
}

impl View for Permissions {
    type V = u64;

    closed spec fn view(&self) -> u64 {
        self.bits
    }
}

/// `bits` holds only defined flags.
pub open spec fn only_defined(bits: u64) -> bool {
    bits & !ALL_BITS == 0
}

/// One overwrite applied to a permission set: `(p & !deny) | allow`, where the
/// complement is taken among the defined flags.
pub open spec fn apply_bits(p: u64, allow: u64, deny: u64) -> u64 {
    (p & (ALL_BITS & !deny)) | allow
}

proof fn lemma_or_defined(a: u64, b: u64)
    requires
        only_defined(a),
        only_defined(b),
    ensures
        only_defined(a | b),
{
    assert((a | b) & !0x4c_7df7_fcffu64 == 0) by (bit_vector)
        requires
            a & !0x4c_7df7_fcffu64 == 0,
            b & !0x4c_7df7_fcffu64 == 0,
    ;
}

proof fn lemma_apply_defined(p: u64, allow: u64, deny: u64)
    requires
        only_defined(p),
        only_defined(allow),
    ensures
        only_defined(apply_bits(p, allow, deny)),
{
    assert(((p & (0x4c_7df7_fcffu64 & !deny)) | allow) & !0x4c_7df7_fcffu64 == 0) by (bit_vector)
        requires
            p & !0x4c_7df7_fcffu64 == 0,
            allow & !0x4c_7df7_fcffu64 == 0,
    ;
}

impl Permissions {
    #[verifier::type_invariant]
    spec fn inv(self) -> bool {
        only_defined(self.bits)
    }

    /// The empty set.
    pub fn empty() -> (p: Self)
        ensures
            p@ == 0,
    {
        assert(0u64 & !0x4c_7df7_fcffu64 == 0) by (bit_vector);
        Permissions { bits: 0 }
    }

    /// Every defined flag.
    pub fn all() -> (p: Self)
        ensures
            p@ == ALL_BITS,
    {
        assert(0x4c_7df7_fcffu64 & !0x4c_7df7_fcffu64 == 0) by (bit_vector);
        Permissions { bits: ALL_BITS }
    }

    /// The flags of `bits` that are defined; undefined bits are dropped.
    pub fn from_bits_truncate(bits: u64) -> (p: Self)
        ensures
            p@ == bits & ALL_BITS,
    {
        assert((bits & 0x4c_7df7_fcffu64) & !0x4c_7df7_fcffu64 == 0) by (bit_vector);
        Permissions { bits: bits & ALL_BITS }
    }

    /// The raw bits.
    pub fn bits(&self) -> (b: u64)
        ensures
            b == self@,
            only_defined(b),
    {
        proof {
            use_type_invariant(self);
        }
        self.bits
    }

    /// Whether every flag of `other` is set here.
    pub fn contains(&self, other: Permissions) -> (b: bool)
        ensures
            b == (self@ & other@ == other@),
    {
        self.bits & other.bits == other.bits
    }

    /// The flags set in either.
    pub fn union(self, other: Permissions) -> (p: Self)
        ensures
            p@ == self@ | other@,
    {
        proof {
            use_type_invariant(&self);
            use_type_invariant(&other);
            lemma_or_defined(self.bits, other.bits);
        }
        Permissions { bits: self.bits | other.bits }
    }

    /// The flags set in both.
    pub fn intersection(self, other: Permissions) -> (p: Self)
        ensures
            p@ == self@ & other@,
    {
        proof {
            use_type_invariant(&self);
        }
        let b = self.bits;
        let o = other.bits;
        assert((b & o) & !0x4c_7df7_fcffu64 == 0) by (bit_vector)
            requires
                b & !0x4c_7df7_fcffu64 == 0,
        ;
        Permissions { bits: b & o }
    }

    /// The defined flags not set here.
    pub fn complement(self) -> (p: Self)
        ensures
            p@ == ALL_BITS & !self@,
    {
        let b = self.bits;
        assert((0x4c_7df7_fcffu64 & !b) & !0x4c_7df7_fcffu64 == 0) by (bit_vector);
        Permissions { bits: ALL_BITS & !b }
    }

    /// Applies one overwrite: `(self & !deny) | allow`.
    pub fn apply(self, ow: Overwrite) -> (p: Self)
        ensures
            p@ == apply_bits(self@, ow.allow@, ow.deny@),
    {
        proof {
            use_type_invariant(&self);
            use_type_invariant(&ow.allow);
            lemma_apply_defined(self.bits, ow.allow.bits, ow.deny.bits);
        }
        Permissions { bits: (self.bits & (ALL_BITS & !ow.deny.bits)) | ow.allow.bits }
    }
}

impl core::default::Default for Permissions {
    fn default() -> (p: Self)
        ensures
            p@ == 0,
    {
        Permissions::empty()
    }
}

/// The set whose flags are those of either.
pub closed spec fn union_of(a: Permissions, b: Permissions) -> Permissions {
    Permissions { bits: a.bits | b.bits }
}

impl core::ops::BitOr for Permissions {
    type Output = Permissions;

    fn bitor(self, rhs: Permissions) -> (p: Permissions)
        ensures
            p@ == self@ | rhs@,
            p == union_of(self, rhs),
    {
        self.union(rhs)
    }
}

impl vstd::std_specs::ops::BitOrSpecImpl for Permissions {
    open spec fn obeys_bitor_spec() -> bool {
        true
    }

    open spec fn bitor_req(self, rhs: Permissions) -> bool {
        true
    }

    open spec fn bitor_spec(self, rhs: Permissions) -> Permissions {
        union_of(self, rhs)
    }
}

/// A channel permission overwrite: an allow set and a deny set.
#[derive(Clone, Copy, Debug)]
pub struct Overwrite {
    pub allow: Permissions,
    pub deny: Permissions,
}

impl core::default::Default for Overwrite {
    fn default() -> (ow: Self)
        ensures
            ow.allow@ == 0,
            ow.deny@ == 0,
    {
        Overwrite { allow: Permissions::empty(), deny: Permissions::empty() }
    }
}

/// Union of the bits of the first `n` permission sets.
pub open spec fn union_prefix(s: Seq<Permissions>, n: int) -> u64
    decreases n,
{
    if n <= 0 {
        0
    } else {
        union_prefix(s, n - 1) | s[n - 1]@
    }
}

/// Union of the allow sets of the first `n` overwrites.
pub open spec fn allow_prefix(s: Seq<Overwrite>, n: int) -> u64
    decreases n,
{
    if n <= 0 {
        0
    } else {
        allow_prefix(s, n - 1) | s[n - 1].allow@
    }
}

/// Union of the deny sets of the first `n` overwrites.
pub open spec fn deny_prefix(s: Seq<Overwrite>, n: int) -> u64
    decreases n,
{
    if n <= 0 {
        0
    } else {
        deny_prefix(s, n - 1) | s[n - 1].deny@
    }
}

/// The channel-context permissions: owner and administrator bypass; otherwise
/// base = everyone ∪ roles, then the everyone overwrite, the united role
/// overwrites and the member overwrite are applied in that order.
pub open spec fn channel_permissions(
    is_owner: bool,
    everyone: u64,
    roles: Seq<Permissions>,
    everyone_ow: Overwrite,
    role_ows: Seq<Overwrite>,
    member_ow: Overwrite,
) -> u64 {
    let base = everyone | union_prefix(roles, roles.len() as int);
    if is_owner {
        ALL_BITS
    } else if base & ADMINISTRATOR == ADMINISTRATOR {
        ALL_BITS
    } else {
        let p1 = apply_bits(base, everyone_ow.allow@, everyone_ow.deny@);
        let p2 = apply_bits(
            p1,
            allow_prefix(role_ows, role_ows.len() as int),
            deny_prefix(role_ows, role_ows.len() as int),
        );
        apply_bits(p2, member_ow.allow@, member_ow.deny@)
    }
}

/// Effective permissions of a member in a channel (see [`channel_permissions`]).
pub fn compute_channel_permissions(
    is_owner: bool,
    everyone: Permissions,
    roles: &[Permissions],
    everyone_ow: Overwrite,
    role_ows: &[Overwrite],
    member_ow: Overwrite,
) -> (p: Permissions)
    ensures
        p@ == channel_permissions(is_owner, everyone@, roles@, everyone_ow, role_ows@, member_ow),
{
    if is_owner {
        return Permissions::all();
    }
    let mut perms = everyone;
    proof {
        let e = everyone@;
        assert(e | 0 == e) by (bit_vector);
    }
    let mut i: usize = 0;
    while i < roles.len()
        invariant
            i <= roles.len(),
            perms@ == everyone@ | union_prefix(roles@, i as int),
        decreases roles.len() - i,
    {
        let r = roles[i];
        let ghost before = perms@;
        perms = perms.union(r);
        proof {
            let e = everyone@;
            let u = union_prefix(roles@, i as int);
            let rb = r@;
            assert((e | u) | rb == e | (u | rb)) by (bit_vector);
        }
        i = i + 1;
    }
    let admin = Permissions::from_bits_truncate(ADMINISTRATOR);
    assert(8u64 & 0x4c_7df7_fcffu64 == 8u64) by (bit_vector);
    if perms.contains(admin) {
        return Permissions::all();
    }
    perms = perms.apply(everyone_ow);

    let mut role_deny = Permissions::empty();
    let mut role_allow = Permissions::empty();
    let mut j: usize = 0;
    while j < role_ows.len()
        invariant
            j <= role_ows.len(),
            role_deny@ == deny_prefix(role_ows@, j as int),
            role_allow@ == allow_prefix(role_ows@, j as int),
        decreases role_ows.len() - j,
    {
        let ow = role_ows[j];
        role_deny = role_deny.union(ow.deny);
        role_allow = role_allow.union(ow.allow);
        j = j + 1;
    }
    perms = perms.apply(Overwrite { allow: role_allow, deny: role_deny });
    perms.apply(member_ow)
}

/// The owner always holds every permission, whatever the overwrites say.
pub proof fn lemma_owner_has_all(
    everyone: u64,
    roles: Seq<Permissions>,
    everyone_ow: Overwrite,
    role_ows: Seq<Overwrite>,
    member_ow: Overwrite,
)
    ensures
        channel_permissions(true, everyone, roles, everyone_ow, role_ows, member_ow) == ALL_BITS,
{
}

/// A member whose everyone-or-role permissions include ADMINISTRATOR holds
/// every permission, whatever the overwrites say.
pub proof fn lemma_administrator_has_all(
    is_owner: bool,
    everyone: u64,
    roles: Seq<Permissions>,
    everyone_ow: Overwrite,
    role_ows: Seq<Overwrite>,
    member_ow: Overwrite,
)
    requires
        (everyone | union_prefix(roles, roles.len() as int)) & ADMINISTRATOR == ADMINISTRATOR,
    ensures
        channel_permissions(is_owner, everyone, roles, everyone_ow, role_ows, member_ow)
            == ALL_BITS,
{
}

/// Outside the bypass cases the member overwrite decides last: every flag it
/// allows is granted, and every flag it denies without allowing is withheld.
pub proof fn lemma_member_overwrite_wins(
    everyone: u64,
    roles: Seq<Permissions>,
    everyone_ow: Overwrite,
    role_ows: Seq<Overwrite>,
    member_ow: Overwrite,
)
    requires
        (everyone | union_prefix(roles, roles.len() as int)) & ADMINISTRATOR != ADMINISTRATOR,
    ensures
        ({
            let p = channel_permissions(false, everyone, roles, everyone_ow, role_ows, member_ow);
            &&& p & member_ow.allow@ == member_ow.allow@
            &&& p & (member_ow.deny@ & !member_ow.allow@) == 0
        }),
{
    let base = everyone | union_prefix(roles, roles.len() as int);
    let p1 = apply_bits(base, everyone_ow.allow@, everyone_ow.deny@);
    let p2 = apply_bits(
        p1,
        allow_prefix(role_ows, role_ows.len() as int),
        deny_prefix(role_ows, role_ows.len() as int),
    );
    lemma_apply_law(p2, member_ow.allow@, member_ow.deny@);
}

/// Applying an overwrite grants its allow set and withholds what it denies
/// without allowing; other flags keep their value. The result holds nothing
/// beyond the old set and the allow set, and applying the same overwrite again
/// changes nothing.
pub proof fn lemma_apply_law(p: u64, allow: u64, deny: u64)
    ensures
        apply_bits(p, allow, deny) & allow == allow,
        apply_bits(p, allow, deny) & (deny & !allow) == 0,
        apply_bits(p, allow, deny) & (ALL_BITS & !deny & !allow) == p & (ALL_BITS & !deny & !allow),
        (p | allow) & apply_bits(p, allow, deny) == apply_bits(p, allow, deny),
        apply_bits(apply_bits(p, allow, deny), allow, deny) == apply_bits(p, allow, deny),
{
    assert((p | allow) & ((p & (0x4c_7df7_fcffu64 & !deny)) | allow) == (p & (0x4c_7df7_fcffu64 & !deny))
        | allow) by (bit_vector);
    assert(((((p & (0x4c_7df7_fcffu64 & !deny)) | allow) & (0x4c_7df7_fcffu64 & !deny)) | allow) == (p & (
    0x4c_7df7_fcffu64 & !deny)) | allow) by (bit_vector);
    assert(((p & (0x4c_7df7_fcffu64 & !deny)) | allow) & allow == allow) by (bit_vector);
    assert(((p & (0x4c_7df7_fcffu64 & !deny)) | allow) & (deny & !allow) == 0) by (bit_vector);
    assert(((p & (0x4c_7df7_fcffu64 & !deny)) | allow) & (0x4c_7df7_fcffu64 & !deny & !allow)
        == p & (0x4c_7df7_fcffu64 & !deny & !allow)) by (bit_vector);
}

/// The pooled allow set holds the allow set of each overwrite.
proof fn lemma_allow_prefix_has(s: Seq<Overwrite>, n: int, i: int)
    requires
        0 <= i < n,
    ensures
        allow_prefix(s, n) & s[i].allow@ == s[i].allow@,
    decreases n,
{
    let a = s[i].allow@;
    let x = allow_prefix(s, n - 1);
    let y = s[n - 1].allow@;
    if i < n - 1 {
        lemma_allow_prefix_has(s, n - 1, i);
        assert((x | y) & a == a) by (bit_vector)
            requires
                x & a == a,
        ;
    } else {
        assert((x | a) & a == a) by (bit_vector);
    }
}

/// The pooled deny set holds the deny set of each overwrite.
proof fn lemma_deny_prefix_has(s: Seq<Overwrite>, n: int, i: int)
    requires
        0 <= i < n,
    ensures
        deny_prefix(s, n) & s[i].deny@ == s[i].deny@,
    decreases n,
{
    let a = s[i].deny@;
    let x = deny_prefix(s, n - 1);
    let y = s[n - 1].deny@;
    if i < n - 1 {
        lemma_deny_prefix_has(s, n - 1, i);
        assert((x | y) & a == a) by (bit_vector)
            requires
                x & a == a,
        ;
    } else {
        assert((x | a) & a == a) by (bit_vector);
    }
}

/// The role overwrites are pooled (outside the bypass cases): a flag that
/// any role's overwrite allows is granted over every role's deny unless the
/// member overwrite denies it; a flag that some role's overwrite denies, that
/// no role's overwrite allows and that the member overwrite does not allow,
/// is withheld.
pub proof fn lemma_role_overwrites_pooled(
    everyone: u64,
    roles: Seq<Permissions>,
    everyone_ow: Overwrite,
    role_ows: Seq<Overwrite>,
    member_ow: Overwrite,
    i: int,
)
    requires
        (everyone | union_prefix(roles, roles.len() as int)) & ADMINISTRATOR != ADMINISTRATOR,
        0 <= i < role_ows.len(),
        only_defined(role_ows[i].allow@),
    ensures
        ({
            let p = channel_permissions(false, everyone, roles, everyone_ow, role_ows, member_ow);
            let granted = role_ows[i].allow@ & !member_ow.deny@;
            let withheld = role_ows[i].deny@ & !allow_prefix(role_ows, role_ows.len() as int)
                & !member_ow.allow@;
            &&& p & granted == granted
            &&& p & withheld == 0
        }),
{
    let n = role_ows.len() as int;
    let base = everyone | union_prefix(roles, roles.len() as int);
    let p1 = apply_bits(base, everyone_ow.allow@, everyone_ow.deny@);
    let ap = allow_prefix(role_ows, n);
    let dp = deny_prefix(role_ows, n);
    let p2 = apply_bits(p1, ap, dp);
    lemma_apply_law(p1, ap, dp);
    lemma_allow_prefix_has(role_ows, n, i);
    lemma_deny_prefix_has(role_ows, n, i);
    let a = role_ows[i].allow@;
    let d = role_ows[i].deny@;
    let am = member_ow.allow@;
    let dm = member_ow.deny@;
    assert(((p2 & (0x4c_7df7_fcffu64 & !dm)) | am) & (a & !dm) == a & !dm) by (bit_vector)
        requires
            p2 & ap == ap,
            ap & a == a,
            a & !0x4c_7df7_fcffu64 == 0,
    ;
    assert(((p2 & (0x4c_7df7_fcffu64 & !dm)) | am) & (d & !ap & !am) == 0) by (bit_vector)
        requires
            p2 & (dp & !ap) == 0,
            dp & d == d,
    ;
}

/// The @everyone channel overwrite takes effect (outside the bypass cases):
/// a flag it denies without allowing, that no role overwrite and not the
/// member overwrite allows, is withheld; a flag it allows, that no role
/// overwrite and not the member overwrite denies, is granted.
pub proof fn lemma_everyone_overwrite_applies(
    everyone: u64,
    roles: Seq<Permissions>,
    everyone_ow: Overwrite,
    role_ows: Seq<Overwrite>,
    member_ow: Overwrite,
)
    requires
        (everyone | union_prefix(roles, roles.len() as int)) & ADMINISTRATOR != ADMINISTRATOR,
        only_defined(everyone_ow.allow@),
    ensures
        ({
            let p = channel_permissions(false, everyone, roles, everyone_ow, role_ows, member_ow);
            let ap = allow_prefix(role_ows, role_ows.len() as int);
            let dp = deny_prefix(role_ows, role_ows.len() as int);
            let withheld = everyone_ow.deny@ & !everyone_ow.allow@ & !ap & !member_ow.allow@;
            let granted = everyone_ow.allow@ & !dp & !member_ow.deny@;
            &&& p & withheld == 0
            &&& p & granted == granted
        }),
{
    let base = everyone | union_prefix(roles, roles.len() as int);
    let ea = everyone_ow.allow@;
    let ed = everyone_ow.deny@;
    let ap = allow_prefix(role_ows, role_ows.len() as int);
    let dp = deny_prefix(role_ows, role_ows.len() as int);
    let am = member_ow.allow@;
    let dm = member_ow.deny@;
    assert(((((((base & (0x4c_7df7_fcffu64 & !ed)) | ea) & (0x4c_7df7_fcffu64 & !dp)) | ap) & (0x4c_7df7_fcffu64
        & !dm)) | am) & (ed & !ea & !ap & !am) == 0) by (bit_vector);
    assert(((((((base & (0x4c_7df7_fcffu64 & !ed)) | ea) & (0x4c_7df7_fcffu64 & !dp)) | ap) & (0x4c_7df7_fcffu64
        & !dm)) | am) & (ea & !dp & !dm) == ea & !dp & !dm) by (bit_vector)
        requires
            ea & !0x4c_7df7_fcffu64 == 0,
    ;
}

/// Without overwrites (outside the bypass cases) a member holds exactly the
/// union of the @everyone permissions and those of their roles.
pub proof fn lemma_no_overwrites_keep_base(
    everyone: u64,
    roles: Seq<Permissions>,
    everyone_ow: Overwrite,
    role_ows: Seq<Overwrite>,
    member_ow: Overwrite,
)
    requires
        (everyone | union_prefix(roles, roles.len() as int)) & ADMINISTRATOR != ADMINISTRATOR,
        only_defined(everyone | union_prefix(roles, roles.len() as int)),
        everyone_ow.allow@ == 0 && everyone_ow.deny@ == 0,
        member_ow.allow@ == 0 && member_ow.deny@ == 0,
        allow_prefix(role_ows, role_ows.len() as int) == 0,
        deny_prefix(role_ows, role_ows.len() as int) == 0,
    ensures
        channel_permissions(false, everyone, roles, everyone_ow, role_ows, member_ow) == everyone | union_prefix(
            roles,
            roles.len() as int,
        ),
{
    let base = everyone | union_prefix(roles, roles.len() as int);
    assert(((((((base & (0x4c_7df7_fcffu64 & !0u64)) | 0u64) & (0x4c_7df7_fcffu64 & !0u64)) | 0u64) & (
    0x4c_7df7_fcffu64 & !0u64)) | 0u64) == base) by (bit_vector)
        requires
            base & !0x4c_7df7_fcffu64 == 0,
    ;
}

} // verus!
