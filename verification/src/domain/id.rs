//! Snowflake identifiers and the typed entity ids built on them.
//!
//! A snowflake is 64 bits: `[timestamp 41 | worker 10 | sequence 12]`, where the
//! timestamp counts milliseconds since [`EPOCH_MS`]. No central sequence exists:
//! one generator per worker id makes every id unique.

use vstd::prelude::*;

verus! {

/// Custom epoch (ms) of every snowflake timestamp.
pub const EPOCH_MS: u64 = 1_700_000_000_000;

/// Width of the worker field.
pub const WORKER_BITS: u64 = 10;

/// Width of the sequence field.
pub const SEQ_BITS: u64 = 12;

/// Largest worker id (`2^10 - 1`).
pub const WORKER_MAX: u16 = 1023;

/// Largest sequence number within one millisecond (`2^12 - 1`).
pub const SEQ_MAX: u16 = 4095;

/// The raw value with the given relative timestamp, worker and sequence fields.
pub open spec fn pack(rel: u64, worker: u64, seq: u64) -> u64 {
    (rel << 22u64) | (worker << 12u64) | seq
}

/// Relative timestamp field of a raw snowflake.
pub open spec fn rel_of(raw: u64) -> u64 {
    raw >> 22u64
}

/// Worker field of a raw snowflake.
pub open spec fn worker_of(raw: u64) -> u64 {
    (raw >> 12u64) & 1023u64
}

/// Sequence field of a raw snowflake.
pub open spec fn seq_of(raw: u64) -> u64 {
    raw & 4095u64
}

/// A time-sortable 64-bit identifier. Ordered by its raw value.
#[derive(Clone, Copy, PartialEq, Eq, PartialOrd, Ord, Hash, Debug)]
pub struct Snowflake(pub u64);

impl Snowflake {
    pub fn from_raw(raw: u64) -> (s: Self)
        ensures
            s.0 == raw,
    {
        Snowflake(raw)
    }

    pub fn raw(self) -> (r: u64)
        ensures
            r == self.0,
    {
        self.0
    }

    /// Absolute timestamp (ms) encoded in the id.
    pub fn timestamp_ms(self) -> (t: u64)
        ensures
            t == rel_of(self.0) + EPOCH_MS,
    {
        let raw = self.0;
        assert(raw >> 22u64 <= 0x3ff_ffff_ffffu64) by (bit_vector);
        (raw >> 22u64) + EPOCH_MS
    }

    /// Worker id encoded in the id.
    pub fn worker(self) -> (w: u16)
        ensures
            w == worker_of(self.0),
    {
        let raw = self.0;
        assert((raw >> 12u64) & 1023u64 <= 1023u64) by (bit_vector);
        ((raw >> 12u64) & 1023u64) as u16
    }

    /// Sequence number encoded in the id.
    pub fn sequence(self) -> (s: u16)
        ensures
            s == seq_of(self.0),
    {
        let raw = self.0;
        assert(raw & 4095u64 <= 4095u64) by (bit_vector);
        (raw & 4095u64) as u16
    }
}

/// The three fields read back from a packed value are the ones packed in,
/// as long as each fits its width.
pub proof fn lemma_pack_fields(rel: u64, worker: u64, seq: u64)
    requires
        rel < 0x400_0000_0000u64,
        worker <= 1023,
        seq <= 4095,
    ensures
        rel_of(pack(rel, worker, seq)) == rel,
        worker_of(pack(rel, worker, seq)) == worker,
        seq_of(pack(rel, worker, seq)) == seq,
{
    assert(((rel << 22u64) | (worker << 12u64) | seq) >> 22u64 == rel) by (bit_vector)
        requires
            rel < 0x400_0000_0000u64,
            worker <= 1023,
            seq <= 4095,
    ;
    assert((((rel << 22u64) | (worker << 12u64) | seq) >> 12u64) & 1023u64 == worker)
        by (bit_vector)
        requires
            rel < 0x400_0000_0000u64,
            worker <= 1023,
            seq <= 4095,
    ;
    assert(((rel << 22u64) | (worker << 12u64) | seq) & 4095u64 == seq) by (bit_vector)
        requires
            rel < 0x400_0000_0000u64,
            worker <= 1023,
            seq <= 4095,
    ;
}

/// Ids of different workers never collide: the worker field tells them apart.
pub proof fn lemma_workers_never_collide(r1: u64, w1: u64, s1: u64, r2: u64, w2: u64, s2: u64)
    requires
        r1 < 0x400_0000_0000u64,
        r2 < 0x400_0000_0000u64,
        w1 <= 1023,
        w2 <= 1023,
        s1 <= 4095,
        s2 <= 4095,
        w1 != w2,
    ensures
        pack(r1, w1, s1) != pack(r2, w2, s2),
{
    lemma_pack_fields(r1, w1, s1);
    lemma_pack_fields(r2, w2, s2);
}

/// With a fixed worker, packed values are ordered lexicographically by
/// (relative timestamp, sequence).
pub proof fn lemma_pack_order(r1: u64, s1: u64, r2: u64, s2: u64, worker: u64)
    requires
        r1 < 0x400_0000_0000u64,
        r2 < 0x400_0000_0000u64,
        worker <= 1023,
        s1 <= 4095,
        s2 <= 4095,
        r1 < r2 || (r1 == r2 && s1 < s2),
    ensures
        pack(r1, worker, s1) < pack(r2, worker, s2),
{
    assert(((r1 << 22u64) | (worker << 12u64) | s1) < ((r2 << 22u64) | (worker << 12u64) | s2))
        by (bit_vector)
        requires
            r1 < 0x400_0000_0000u64,
            r2 < 0x400_0000_0000u64,
            worker <= 1023,
            s1 <= 4095,
            s2 <= 4095,
            r1 < r2 || (r1 == r2 && s1 < s2),
    ;
}

/// The (relative ms, sequence) pair that follows `(last_rel, last_seq)` when the
/// clock reads `now_rel`: a newer millisecond restarts the sequence; the same
/// or an older millisecond bumps the sequence, and an exhausted sequence moves
/// on to the next logical millisecond.
pub open spec fn advance(last_rel: u64, last_seq: u64, now_rel: u64) -> (u64, u64) {
    if now_rel > last_rel {
        (now_rel, 0)
    } else if last_seq + 1 > 4095 {
        ((last_rel + 1) as u64, 0)
    } else {
        (last_rel, (last_seq + 1) as u64)
    }
}

/// `now_ms` relative to the epoch, floored at zero.
pub open spec fn rel_now(now_ms: u64) -> u64 {
    if now_ms >= EPOCH_MS { (now_ms - EPOCH_MS) as u64 } else { 0 }
}

/// Snowflake generator for one worker id. The clock reading is injected by the
/// caller. Exactly one generator may exist per worker id: uniqueness across
/// the cluster rests on that.
#[derive(Debug)]
pub struct SnowflakeGenerator {
    worker: u16,
    /// `(last_rel << 12) | last_seq`, where `last_rel` is relative to the epoch.
    state: u64,
}

impl SnowflakeGenerator {
    /// Worker id of this generator.
    pub closed spec fn spec_worker(&self) -> u16 {
        self.worker
    }

    /// The packed generator state: `(last_rel << 12) | last_seq`.
    pub closed spec fn spec_state(&self) -> u64 {
        self.state
    }

    /// Relative millisecond of the last id handed out (0 before the first).
    pub closed spec fn last_rel(&self) -> u64 {
        self.state >> 12u64
    }

    /// Sequence of the last id handed out (0 before the first).
    pub closed spec fn last_seq(&self) -> u64 {
        self.state & 4095u64
    }

    /// Well-formedness: the worker fits its field.
    pub closed spec fn wf(&self) -> bool {
        self.worker <= 1023
    }

    /// A fresh generator for `worker` (which must be at most 1023).
    pub fn new(worker: u16) -> (g: Self)
        requires
            worker <= WORKER_MAX,
        ensures
            g.wf(),
            g.spec_worker() == worker,
            g.spec_state() == 0,
            g.last_rel() == 0,
            g.last_seq() == 0,
    {
        let g = SnowflakeGenerator { worker, state: 0 };
        assert(0u64 >> 12u64 == 0 && 0u64 & 4095u64 == 0) by (bit_vector);
        g
    }

    /// Hands out the next id for the clock reading `now_ms`. The relative
    /// millisecond and sequence advance as [`advance`] says, the id packs them
    /// with this generator's worker id, and the generator remembers them
    /// (both packings truncate to 64 bits, as the shifts in the code do).
    pub fn next(&mut self, now_ms: u64) -> (id: Snowflake)
        requires
            old(self).wf(),
        ensures
            final(self).wf(),
            final(self).spec_worker() == old(self).spec_worker(),
            final(self).last_rel() == final(self).spec_state() >> 12u64,
            final(self).last_seq() == final(self).spec_state() & 4095u64,
            ({
                let (r, s) = advance(old(self).last_rel(), old(self).last_seq(), rel_now(now_ms));
                &&& id.0 == pack(r, old(self).spec_worker() as u64, s)
                &&& final(self).spec_state() == (r << 12u64) | s
            }),
    {
        let now_rel = now_ms.saturating_sub(EPOCH_MS);
        let old_state = self.state;
        let last_rel = old_state >> SEQ_BITS;
        let last_seq = old_state & 4095u64;
        assert(old_state >> 12u64 <= 0xf_ffff_ffff_ffffu64) by (bit_vector);
        assert(old_state & 4095u64 <= 4095u64) by (bit_vector);
        let (new_rel, new_seq) = if now_rel > last_rel {
            (now_rel, 0u64)
        } else {
            let s = last_seq + 1;
            if s > 4095 {
                (last_rel + 1, 0u64)
            } else {
                (last_rel, s)
            }
        };
        self.state = (new_rel << SEQ_BITS) | new_seq;
        let w = self.worker as u64;
        let raw = (new_rel << 22u64) | (w << 12u64) | new_seq;
        Snowflake(raw)
    }
}

/// Generator state after `next` is well formed for further calls, and, while the
/// timestamps fit their 41 bits, every id it hands out is strictly greater than
/// the last one, even when the clock goes backwards; the id decodes to the
/// generator's worker and to the advanced (millisecond, sequence) pair.
pub proof fn lemma_next_is_monotonic(last_rel: u64, last_seq: u64, now_ms: u64, worker: u64)
    requires
        last_rel < 0x1ff_ffff_ffffu64,
        last_seq <= 4095,
        rel_now(now_ms) < 0x200_0000_0000u64,
        worker <= 1023,
    ensures
        ({
            let (r, s) = advance(last_rel, last_seq, rel_now(now_ms));
            &&& pack(r, worker, s) > pack(last_rel, worker, last_seq)
            &&& rel_of(pack(r, worker, s)) == r
            &&& worker_of(pack(r, worker, s)) == worker
            &&& seq_of(pack(r, worker, s)) == s
            &&& r >= last_rel
            &&& r >= rel_now(now_ms)
        }),
{
    let (r, s) = advance(last_rel, last_seq, rel_now(now_ms));
    lemma_pack_order(last_rel, last_seq, r, s, worker);
    lemma_pack_fields(r, worker, s);
}

/// Two successive calls of `next` on a generator, from any state it can be in:
/// the second id is greater than the first and carries the same worker, even
/// when the clock went backwards between them, and its timestamp is at least
/// the first one's and at least the second clock reading (while the readings
/// and the generator's timestamp stay below the 41-bit limit).
pub proof fn lemma_successive_ids(g: SnowflakeGenerator, t1: u64, t2: u64)
    requires
        g.wf(),
        g.last_rel() < 0x1ff_ffff_fffeu64,
        rel_now(t1) < 0x1ff_ffff_ffffu64,
        rel_now(t2) < 0x200_0000_0000u64,
    ensures
        ({
            let w = g.spec_worker() as u64;
            let (r1, s1) = advance(g.last_rel(), g.last_seq(), rel_now(t1));
            let st = (r1 << 12u64) | s1;
            let (r2, s2) = advance(st >> 12u64, st & 4095u64, rel_now(t2));
            &&& pack(r2, w, s2) > pack(r1, w, s1)
            &&& worker_of(pack(r2, w, s2)) == w
            &&& r2 >= r1
            &&& r2 >= rel_now(t2)
        }),
{
    let w = g.spec_worker() as u64;
    let st0 = g.spec_state();
    assert(st0 & 4095u64 <= 4095u64) by (bit_vector);
    let (r1, s1) = advance(g.last_rel(), g.last_seq(), rel_now(t1));
    lemma_state_roundtrip(r1, s1);
    lemma_next_is_monotonic(r1, s1, t2, w);
}

/// The generator state after calls of `next` with the clock readings `ts`,
/// in order, from the state `st`, as `next`'s contract gives it.
pub open spec fn state_after(st: u64, ts: Seq<u64>) -> u64
    decreases ts.len(),
{
    if ts.len() == 0 {
        st
    } else {
        let p = state_after(st, ts.drop_last());
        let (r, s) = advance(p >> 12u64, p & 4095u64, rel_now(ts.last()));
        (r << 12u64) | s
    }
}

/// The id that call `k` (from 0) of such a run hands out, for `worker`.
pub open spec fn id_at(st: u64, worker: u64, ts: Seq<u64>, k: int) -> u64 {
    let p = state_after(st, ts.take(k));
    let (r, s) = advance(p >> 12u64, p & 4095u64, rel_now(ts[k]));
    pack(r, worker, s)
}

/// One call after another: the later id is larger and not older.
proof fn lemma_id_step(st: u64, worker: u64, ts: Seq<u64>, k: int)
    requires
        worker <= 1023,
        0 <= k,
        k + 1 < ts.len(),
        rel_now(ts[k]) < 0x200_0000_0000u64,
        rel_now(ts[k + 1]) < 0x200_0000_0000u64,
        state_after(st, ts.take(k)) >> 12u64 < 0x1ff_ffff_ffffu64,
        state_after(st, ts.take(k + 1)) >> 12u64 < 0x1ff_ffff_ffffu64,
    ensures
        id_at(st, worker, ts, k) < id_at(st, worker, ts, k + 1),
        rel_of(id_at(st, worker, ts, k)) <= rel_of(id_at(st, worker, ts, k + 1)),
        rel_of(id_at(st, worker, ts, k + 1)) >= rel_now(ts[k + 1]),
        worker_of(id_at(st, worker, ts, k + 1)) == worker,
{
    let p = state_after(st, ts.take(k));
    assert(p & 4095u64 <= 4095u64) by (bit_vector);
    let (r, s) = advance(p >> 12u64, p & 4095u64, rel_now(ts[k]));
    assert(ts.take(k + 1).drop_last() =~= ts.take(k));
    assert(ts.take(k + 1).last() == ts[k]);
    lemma_state_roundtrip(r, s);
    lemma_pack_fields(r, worker, s);
    lemma_next_is_monotonic(r, s, ts[k + 1], worker);
}

/// Every id a generator hands out is greater than every id it handed out
/// before, whatever the clock read at each call (it may go backwards), and
/// carries the generator's worker; its timestamp is at least every earlier
/// one and at least its own clock reading. This holds while the readings
/// stay below the 41-bit limit and the generator's timestamp stays below it.
pub proof fn lemma_ids_increase(g: SnowflakeGenerator, ts: Seq<u64>, i: int, j: int)
    requires
        g.wf(),
        0 <= i < j < ts.len(),
        forall|k: int| 0 <= k < ts.len() ==> rel_now(#[trigger] ts[k]) < 0x200_0000_0000u64,
        forall|k: int|
            0 <= k <= ts.len() ==> #[trigger] state_after(g.spec_state(), ts.take(k)) >> 12u64 < 0x1ff_ffff_ffffu64,
    ensures
        id_at(g.spec_state(), g.spec_worker() as u64, ts, i) < id_at(g.spec_state(), g.spec_worker() as u64, ts, j),
        rel_of(id_at(g.spec_state(), g.spec_worker() as u64, ts, i)) <= rel_of(
            id_at(g.spec_state(), g.spec_worker() as u64, ts, j),
        ),
        rel_of(id_at(g.spec_state(), g.spec_worker() as u64, ts, j)) >= rel_now(ts[j]),
        worker_of(id_at(g.spec_state(), g.spec_worker() as u64, ts, j)) == g.spec_worker() as u64,
    decreases j - i,
{
    let st = g.spec_state();
    let w = g.spec_worker() as u64;
    assert(rel_now(ts[j - 1]) < 0x200_0000_0000u64);
    assert(rel_now(ts[j]) < 0x200_0000_0000u64);
    assert(state_after(st, ts.take(j - 1)) >> 12u64 < 0x1ff_ffff_ffffu64);
    assert(state_after(st, ts.take(j)) >> 12u64 < 0x1ff_ffff_ffffu64);
    lemma_id_step(st, w, ts, j - 1);
    if i < j - 1 {
        lemma_ids_increase(g, ts, i, j - 1);
    }
}

/// Reading the generator state back after `next` gives the advanced pair,
/// as long as the relative millisecond fits 52 bits.
pub proof fn lemma_state_roundtrip(r: u64, s: u64)
    requires
        r < 0x10_0000_0000_0000u64,
        s <= 4095,
    ensures
        ((r << 12u64) | s) >> 12u64 == r,
        ((r << 12u64) | s) & 4095u64 == s,
{
    assert(((r << 12u64) | s) >> 12u64 == r) by (bit_vector)
        requires
            r < 0x10_0000_0000_0000u64,
            s <= 4095,
    ;
    assert(((r << 12u64) | s) & 4095u64 == s) by (bit_vector)
        requires
            r < 0x10_0000_0000_0000u64,
            s <= 4095,
    ;
}

/// User id.
#[derive(Clone, Copy, PartialEq, Eq, PartialOrd, Ord, Hash, Debug)]
pub struct UserId(pub Snowflake);

/// Realm (guild, DM or group DM) id.
#[derive(Clone, Copy, PartialEq, Eq, PartialOrd, Ord, Hash, Debug)]
pub struct RealmId(pub Snowflake);

/// Channel id.
#[derive(Clone, Copy, PartialEq, Eq, PartialOrd, Ord, Hash, Debug)]
pub struct ChannelId(pub Snowflake);

/// Message id.
#[derive(Clone, Copy, PartialEq, Eq, PartialOrd, Ord, Hash, Debug)]
pub struct MessageId(pub Snowflake);

/// Role id.
#[derive(Clone, Copy, PartialEq, Eq, PartialOrd, Ord, Hash, Debug)]
pub struct RoleId(pub Snowflake);

/// Refresh token id.
#[derive(Clone, Copy, PartialEq, Eq, PartialOrd, Ord, Hash, Debug)]
pub struct RefreshTokenId(pub Snowflake);

/// Attachment id.
#[derive(Clone, Copy, PartialEq, Eq, PartialOrd, Ord, Hash, Debug)]
pub struct AttachmentId(pub Snowflake);

/// Webhook id.
#[derive(Clone, Copy, PartialEq, Eq, PartialOrd, Ord, Hash, Debug)]
pub struct WebhookId(pub Snowflake);

} // verus!
