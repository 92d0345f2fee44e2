//! Routing of per-user events across the cluster: users with a session on
//! this node are served by the hub; for every other node that hosts one of
//! the recipients, the recipients it hosts are sent there in one message.

use vstd::prelude::*;

verus! {

/// How often `n` occurs in `s`.
pub open spec fn count_of(s: Seq<u64>, n: u64) -> nat
    decreases s.len(),
{
    if s.len() == 0 {
        0
    } else {
        count_of(s.drop_last(), n) + if s.last() == n {
            1nat
        } else {
            0nat
        }
    }
}

/// The recipients among the first `k` entries that node `n` receives, in
/// order: each user once for every time the node is listed as its host.
pub open spec fn hosted_upto(recipients: Seq<(u64, Vec<u64>)>, n: u64, k: int) -> Seq<u64>
    decreases k,
{
    if k <= 0 {
        Seq::empty()
    } else {
        hosted_upto(recipients, n, k - 1) + Seq::new(
            count_of(recipients[k - 1].1@, n),
            |_i: int| recipients[k - 1].0,
        )
    }
}

/// The users that node `n` is sent, for recipients given with the nodes
/// that host them.
pub open spec fn hosted_on(recipients: Seq<(u64, Vec<u64>)>, n: u64) -> Seq<u64> {
    hosted_upto(recipients, n, recipients.len() as int)
}

proof fn lemma_count_step(s: Seq<u64>, j: int, n: u64)
    requires
        0 <= j < s.len(),
    ensures
        count_of(s.take(j + 1), n) == count_of(s.take(j), n) + if s[j] == n {
            1nat
        } else {
            0nat
        },
{
    assert(s.take(j + 1).drop_last() =~= s.take(j));
}

/// Groups the recipients of a per-user event by the remote node that hosts
/// them. Each recipient comes with the nodes its sessions live on; the local
/// node is skipped (the hub serves it). Every node that is to receive anyone
/// appears once, with the users it hosts in recipient order.
pub fn group_remote_targets(recipients: &[(u64, Vec<u64>)], local_node: u64) -> (r: Vec<(u64, Vec<u64>)>)
    ensures
        forall|k: int|
            0 <= k < r@.len() ==> {
                &&& #[trigger] r@[k].0 != local_node
                &&& r@[k].1@ == hosted_on(recipients@, r@[k].0)
                &&& r@[k].1@.len() > 0
            },
        forall|a: int, b: int| 0 <= a < b < r@.len() ==> #[trigger] r@[a].0 != #[trigger] r@[b].0,
        forall|n: u64|
            n != local_node && #[trigger] hosted_on(recipients@, n).len() > 0 ==> exists|k: int|
                0 <= k < r@.len() && r@[k].0 == n,
{
    let mut r: Vec<(u64, Vec<u64>)> = Vec::new();
    let mut i: usize = 0;
    while i < recipients.len()
        invariant
            i <= recipients@.len(),
            forall|k: int|
                0 <= k < r@.len() ==> {
                    &&& #[trigger] r@[k].0 != local_node
                    &&& r@[k].1@ == hosted_upto(recipients@, r@[k].0, i as int)
                    &&& r@[k].1@.len() > 0
                },
            forall|a: int, b: int| 0 <= a < b < r@.len() ==> #[trigger] r@[a].0 != #[trigger] r@[b].0,
            forall|n: u64|
                n != local_node && #[trigger] hosted_upto(recipients@, n, i as int).len() > 0
                    ==> exists|k: int| 0 <= k < r@.len() && r@[k].0 == n,
        decreases recipients@.len() - i,
    {
        let user = recipients[i].0;
        let hosts = &recipients[i].1;
        let ghost base = |n: u64| hosted_upto(recipients@, n, i as int);
        let ghost part = |n: u64, j: int|
            base(n) + Seq::new(count_of(hosts@.take(j), n), |_x: int| user);
        proof {
            assert forall|n: u64| #[trigger] part(n, 0) == base(n) by {
                assert(hosts@.take(0).len() == 0);
                assert(part(n, 0) =~= base(n));
            }
        }
        let mut j: usize = 0;
        while j < hosts.len()
            invariant
                i < recipients@.len(),
                user == recipients@[i as int].0,
                *hosts == recipients@[i as int].1,
                j <= hosts@.len(),
                forall|n: u64| #[trigger] base(n) == hosted_upto(recipients@, n, i as int),
                forall|n: u64, jj: int|
                    #[trigger] part(n, jj) == base(n) + Seq::new(
                        count_of(hosts@.take(jj), n),
                        |_x: int| user,
                    ),
                forall|k: int|
                    0 <= k < r@.len() ==> {
                        &&& #[trigger] r@[k].0 != local_node
                        &&& r@[k].1@ == part(r@[k].0, j as int)
                        &&& r@[k].1@.len() > 0
                    },
                forall|a: int, b: int|
                    0 <= a < b < r@.len() ==> #[trigger] r@[a].0 != #[trigger] r@[b].0,
                forall|n: u64|
                    n != local_node && #[trigger] part(n, j as int).len() > 0 ==> exists|k: int|
                        0 <= k < r@.len() && r@[k].0 == n,
            decreases hosts@.len() - j,
        {
            let node = hosts[j];
            proof {
                assert forall|n: u64| #[trigger] part(n, j + 1) =~= if n == node {
                    part(n, j as int).push(user)
                } else {
                    part(n, j as int)
                } by {
                    lemma_count_step(hosts@, j as int, n);
                }
            }
            if node != local_node {
                let mut k: usize = 0;
                let mut found = false;
                while k < r.len() && !found
                    invariant
                        k <= r@.len(),
                        forall|x: int| 0 <= x < k ==> #[trigger] r@[x].0 != node,
                        found ==> k < r@.len() && r@[k as int].0 == node,
                    decreases (r@.len() - k) * 2 + if found {
                        0int
                    } else {
                        1int
                    },
                {
                    if r[k].0 == node {
                        found = true;
                    } else {
                        k = k + 1;
                    }
                }
                let ghost before = r@;
                if found {
                    let (nd, mut g) = r.remove(k);
                    g.push(user);
                    r.insert(k, (nd, g));
                    proof {
                        assert(r@ =~= before.update(k as int, (node, g)));
                        assert forall|a: int, b: int|
                            0 <= a < b < r@.len() implies #[trigger] r@[a].0 != #[trigger] r@[b].0 by {
                            assert(r@[a].0 == before[a].0 && r@[b].0 == before[b].0);
                        }
                        assert forall|n: u64|
                            n != local_node && #[trigger] part(n, j + 1).len() > 0 implies exists|x: int|
                                0 <= x < r@.len() && r@[x].0 == n by {
                            if n == node {
                                assert(r@[k as int].0 == n);
                            } else {
                                assert(part(n, j as int).len() > 0);
                                let x = choose|x: int| 0 <= x < before.len() && before[x].0 == n;
                                assert(r@[x].0 == n);
                            }
                        }
                    }
                } else {
                    let mut g: Vec<u64> = Vec::new();
                    g.push(user);
                    r.push((node, g));
                    proof {
                        assert(part(node, j as int).len() == 0) by {
                            if part(node, j as int).len() > 0 {
                                let x = choose|x: int| 0 <= x < before.len() && before[x].0 == node;
                                assert(before[x].0 != node);
                            }
                        }
                        assert(g@ =~= part(node, j as int).push(user));
                        assert forall|n: u64|
                            n != local_node && #[trigger] part(n, j + 1).len() > 0 implies exists|x: int|
                                0 <= x < r@.len() && r@[x].0 == n by {
                            if n == node {
                                assert(r@[before.len() as int].0 == n);
                            } else {
                                assert(part(n, j as int).len() > 0);
                                let x = choose|x: int| 0 <= x < before.len() && before[x].0 == n;
                                assert(r@[x].0 == n);
                            }
                        }
                    }
                }
            } else {
                proof {
                    assert forall|n: u64|
                        n != local_node && #[trigger] part(n, j + 1).len() > 0 implies exists|x: int|
                            0 <= x < r@.len() && r@[x].0 == n by {
                        assert(part(n, j as int).len() > 0);
                    }
                }
            }
            j = j + 1;
        }
        proof {
            assert(hosts@.take(hosts@.len() as int) =~= hosts@);
            assert forall|n: u64| #[trigger] part(n, j as int) == hosted_upto(recipients@, n, i + 1) by {
                assert(part(n, j as int) =~= hosted_upto(recipients@, n, i + 1));
            }
            assert forall|n: u64|
                n != local_node && #[trigger] hosted_upto(recipients@, n, i + 1).len() > 0 implies exists|x: int|
                    0 <= x < r@.len() && r@[x].0 == n by {
                assert(part(n, j as int) == hosted_upto(recipients@, n, i + 1));
            }
        }
        i = i + 1;
    }
    r
}

} // verus!
