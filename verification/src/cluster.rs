//! Static cluster configuration: this node and its peers.

use vstd::prelude::*;
use crate::text::{concat_str, decimal_string, decimal_text};

verus! {

/// Why a configuration was refused.
#[derive(Debug, PartialEq, Eq)]
pub enum ConfigError {
    /// The configuration text did not parse.
    Parse(String),
    /// The configuration parsed but breaks a rule.
    Invalid(String),
}

/// This node and its peers (static discovery).
#[derive(Debug, Clone, PartialEq, Eq)]
pub struct ClusterConfig {
    pub node: NodeConfig,
    pub peers: Vec<PeerConfig>,
}

#[derive(Debug, Clone, PartialEq, Eq)]
pub struct NodeConfig {
    pub id: u64,
    /// Snowflake worker id, `0..=1023`.
    pub worker_id: u16,
    /// Address the node listens on for other nodes.
    pub listen_addr: String,
}

#[derive(Debug, Clone, PartialEq, Eq)]
pub struct PeerConfig {
    pub id: u64,
    pub addr: String,
}

/// Peer `i` repeats this node's id or an earlier peer's id.
pub open spec fn peer_problem(peers: Seq<PeerConfig>, self_id: u64, i: int) -> bool {
    peers[i].id == self_id || exists|j: int| 0 <= j < i && #[trigger] peers[j].id == peers[i].id
}

/// None of the first `n` peers is a problem.
pub open spec fn peers_ok_before(peers: Seq<PeerConfig>, self_id: u64, n: int) -> bool {
    forall|i: int| 0 <= i < n ==> !#[trigger] peer_problem(peers, self_id, i)
}

/// The message for a worker id out of range.
pub open spec fn worker_id_message(w: u16) -> Seq<char> {
    "worker_id "@ + decimal_text(w as nat) + " out of range (0..=1023)"@
}

/// The message for the first problem peer `p`.
pub open spec fn peer_message(p: PeerConfig, self_id: u64) -> Seq<char> {
    if p.id == self_id {
        "peer list must not contain self"@
    } else {
        "duplicate peer id "@ + decimal_text(p.id as nat)
    }
}

/// The peers, among `peers`, with an id larger than `id`, in order.
pub open spec fn dial_targets(peers: Seq<PeerConfig>, id: u64) -> Seq<PeerConfig>
    decreases peers.len(),
{
    if peers.len() == 0 {
        Seq::empty()
    } else {
        let rest = dial_targets(peers.drop_last(), id);
        if peers.last().id > id {
            rest.push(peers.last())
        } else {
            rest
        }
    }
}

impl ClusterConfig {
    /// Checks the worker id range, then that no peer is this node and no peer
    /// id repeats; reports the first problem found.
    pub fn validate(&self) -> (r: Result<(), ConfigError>)
        ensures
            r is Ok <==> (self.node.worker_id <= 1023 && peers_ok_before(
                self.peers@,
                self.node.id,
                self.peers@.len() as int,
            )),
            self.node.worker_id > 1023 ==> (r matches Err(ConfigError::Invalid(m)) && m@
                == worker_id_message(self.node.worker_id)),
            self.node.worker_id <= 1023 && r is Err ==> exists|i: int|
                0 <= i < self.peers@.len() && peer_problem(self.peers@, self.node.id, i)
                    && peers_ok_before(self.peers@, self.node.id, i) && (r matches Err(
                    ConfigError::Invalid(m),
                ) && m@ == peer_message(#[trigger] self.peers@[i], self.node.id)),
    {
        if self.node.worker_id > 1023 {
            let m = concat_str(
                concat_str("worker_id ".to_owned(), decimal_string(self.node.worker_id as u64).as_str()),
                " out of range (0..=1023)",
            );
            return Err(ConfigError::Invalid(m));
        }
        let n = self.peers.len();
        let mut i: usize = 0;
        while i < n
            invariant
                n == self.peers@.len(),
                i <= n,
                self.node.worker_id <= 1023,
                peers_ok_before(self.peers@, self.node.id, i as int),
            decreases n - i,
        {
            let p = &self.peers[i];
            if p.id == self.node.id {
                proof {
                    assert(peer_problem(self.peers@, self.node.id, i as int));
                    assert(peer_message(self.peers@[i as int], self.node.id) == "peer list must not contain self"@);
                }
                return Err(ConfigError::Invalid("peer list must not contain self".to_owned()));
            }
            let mut j: usize = 0;
            while j < i
                invariant
                    n == self.peers@.len(),
                    j <= i < n,
                    self.node.worker_id <= 1023,
                    peers_ok_before(self.peers@, self.node.id, i as int),
                    p == self.peers@[i as int],
                    p.id != self.node.id,
                    forall|k: int| 0 <= k < j ==> self.peers@[k].id != p.id,
                decreases i - j,
            {
                if self.peers[j].id == p.id {
                    let m = concat_str("duplicate peer id ".to_owned(), decimal_string(p.id).as_str());
                    proof {
                        assert(peer_problem(self.peers@, self.node.id, i as int));
                        assert(peer_message(self.peers@[i as int], self.node.id) == "duplicate peer id "@ + decimal_text(p.id as nat));
                    }
                    return Err(ConfigError::Invalid(m));
                }
                j = j + 1;
            }
            proof {
                assert(!peer_problem(self.peers@, self.node.id, i as int));
                assert forall|k: int| 0 <= k < i + 1 implies !#[trigger] peer_problem(
                    self.peers@,
                    self.node.id,
                    k,
                ) by {
                    if k < i {
                        assert(!peer_problem(self.peers@, self.node.id, k));
                    }
                }
            }
            i = i + 1;
        }
        Ok(())
    }

    /// Peers this node dials in a full mesh: those with a larger id (one
    /// connection per pair).
    pub fn peers_to_dial(&self) -> (r: Vec<&PeerConfig>)
        ensures
            r@.map_values(|p: &PeerConfig| *p) == dial_targets(self.peers@, self.node.id),
    {
        let mut out: Vec<&PeerConfig> = Vec::new();
        let n = self.peers.len();
        let mut i: usize = 0;
        while i < n
            invariant
                n == self.peers@.len(),
                i <= n,
                out@.map_values(|p: &PeerConfig| *p) == dial_targets(
                    self.peers@.take(i as int),
                    self.node.id,
                ),
            decreases n - i,
        {
            assert(self.peers@.take(i + 1).drop_last() =~= self.peers@.take(i as int));
            if self.peers[i].id > self.node.id {
                out.push(&self.peers[i]);
            }
            assert(out@.map_values(|p: &PeerConfig| *p) =~= dial_targets(
                self.peers@.take(i + 1),
                self.node.id,
            ));
            i = i + 1;
        }
        assert(self.peers@.take(n as int) =~= self.peers@);
        out
    }

    /// A parsed configuration, validated; a parse failure's message becomes a
    /// `Parse` error.
    pub fn from_parsed(parsed: Result<ClusterConfig, String>) -> (r: Result<ClusterConfig, ConfigError>)
        ensures
            parsed matches Err(m) ==> r == Err::<ClusterConfig, ConfigError>(ConfigError::Parse(m)),
            parsed matches Ok(c) ==> (r is Ok <==> (c.node.worker_id <= 1023 && peers_ok_before(
                c.peers@,
                c.node.id,
                c.peers@.len() as int,
            ))),
            parsed matches Ok(c) ==> (r is Ok ==> r == Ok::<ClusterConfig, ConfigError>(c)),
            parsed matches Ok(c) ==> (c.node.worker_id > 1023 ==> (r matches Err(ConfigError::Invalid(m)) && m@
                == worker_id_message(c.node.worker_id))),
            parsed matches Ok(c) ==> (c.node.worker_id <= 1023 && r is Err ==> exists|i: int|
                0 <= i < c.peers@.len() && peer_problem(c.peers@, c.node.id, i) && peers_ok_before(
                    c.peers@,
                    c.node.id,
                    i,
                ) && (r matches Err(ConfigError::Invalid(m)) && m@ == peer_message(
                    #[trigger] c.peers@[i],
                    c.node.id,
                ))),
    {
        match parsed {
            Err(m) => Err(ConfigError::Parse(m)),
            Ok(c) => match c.validate() {
                Ok(()) => Ok(c),
                Err(e) => Err(e),
            },
        }
    }
}

/// A peer is dialled exactly when it is listed and its id is larger.
pub proof fn lemma_dial_targets_contains(peers: Seq<PeerConfig>, id: u64, p: PeerConfig)
    ensures
        dial_targets(peers, id).contains(p) <==> (peers.contains(p) && p.id > id),
    decreases peers.len(),
{
    if peers.len() > 0 {
        lemma_dial_targets_contains(peers.drop_last(), id, p);
        let rest = dial_targets(peers.drop_last(), id);
        assert(peers =~= peers.drop_last().push(peers.last()));
        if peers.contains(p) && p.id > id && !peers.drop_last().contains(p) {
            assert(p == peers.last());
            assert(rest.push(p)[rest.len() as int] == p);
        }
        if rest.contains(p) {
            let k = choose|k: int| 0 <= k < rest.len() && rest[k] == p;
            if peers.last().id > id {
                assert(rest.push(peers.last())[k] == p);
            }
        }
        if dial_targets(peers, id).contains(p) && peers.last().id > id && !rest.contains(p) {
            let k = choose|k: int| 0 <= k < rest.len() + 1 && rest.push(peers.last())[k] == p;
            assert(k == rest.len());
            assert(peers[peers.len() - 1] == p);
        }
        if peers.drop_last().contains(p) {
            let k = choose|k: int| 0 <= k < peers.len() - 1 && peers.drop_last()[k] == p;
            assert(peers[k] == p);
        }
    }
}

/// In a full mesh each pair of nodes keeps one connection: of two configs
/// whose peer lists pass validation and that list each other as peers,
/// exactly one dials the other.
pub proof fn lemma_one_side_dials(a: ClusterConfig, b: ClusterConfig, pa: PeerConfig, pb: PeerConfig)
    requires
        peers_ok_before(a.peers@, a.node.id, a.peers@.len() as int),
        peers_ok_before(b.peers@, b.node.id, b.peers@.len() as int),
        a.peers@.contains(pb),
        pb.id == b.node.id,
        b.peers@.contains(pa),
        pa.id == a.node.id,
    ensures
        a.node.id != b.node.id,
        dial_targets(a.peers@, a.node.id).contains(pb) != dial_targets(b.peers@, b.node.id).contains(pa),
{
    let k = choose|k: int| 0 <= k < b.peers@.len() && b.peers@[k] == pa;
    assert(!peer_problem(b.peers@, b.node.id, k));
    lemma_dial_targets_contains(a.peers@, a.node.id, pb);
    lemma_dial_targets_contains(b.peers@, b.node.id, pa);
}

} // verus!
