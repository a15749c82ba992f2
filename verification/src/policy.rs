use crate::sim_id::SimId;
use vstd::prelude::*;

verus! {

/// Rate at which a node's upload or download path moves data.
#[derive(Clone, Copy, PartialEq, Eq, Structural, Debug)]
pub enum Bandwidth {
    /// No throttling: transmission takes no simulated time.
    Unbounded,
    /// A finite rate, in bits per second.
    BitsPerSec(u64),
}

/// Fixed traversal time of a directed edge, in nanoseconds.
#[derive(Clone, Copy, PartialEq, Eq, Structural, Debug)]
pub struct Latency {
    /// The edge's traversal time in nanoseconds.
    pub nanos: u64,
}

/// Probability that a message crossing an edge is dropped, as the fraction
/// `numerator / denominator` of `[0, 1]`.
#[derive(Clone, Copy, PartialEq, Eq, Structural, Debug)]
pub struct PacketLoss {
    /// Lost share of the fraction.
    pub numerator: u64,
    /// Total share of the fraction; at least one.
    pub denominator: u64,
}

impl PacketLoss {
    /// The fraction denotes a probability: `numerator / denominator` in `[0, 1]`.
    pub open spec fn wf(self) -> bool {
        self.denominator >= 1 && self.numerator <= self.denominator
    }

    /// Zero probability: no message is ever dropped.
    pub fn none() -> (r: PacketLoss)
        ensures
            r == (PacketLoss { numerator: 0, denominator: 1 }),
            r.wf(),
    {
        PacketLoss { numerator: 0, denominator: 1 }
    }
}

/// Per-node policy: how fast the node's upload and download paths are.
#[derive(Clone, Copy, PartialEq, Eq, Structural, Debug)]
pub struct NodePolicy {
    /// Rate of the node's upload path.
    pub bandwidth_up: Bandwidth,
    /// Rate of the node's download path.
    pub bandwidth_down: Bandwidth,
}

/// Per-edge policy: fixed latency and loss probability of the directed edge.
#[derive(Clone, Copy, PartialEq, Eq, Structural, Debug)]
pub struct EdgePolicy {
    /// Fixed traversal time of the edge.
    pub latency: Latency,
    /// Probability that a message crossing the edge is dropped.
    pub packet_loss: PacketLoss,
}

impl EdgePolicy {
    /// The loss probability is a valid fraction.
    pub open spec fn wf(self) -> bool {
        self.packet_loss.wf()
    }
}

/// A directed pair of nodes.  The two directions of the same pair are
/// distinct edges and may hold independent policies.
#[derive(Clone, Copy, PartialEq, Eq, Structural, Hash, Debug)]
pub struct Edge {
    /// The sending end.
    pub from: SimId,
    /// The receiving end.
    pub to: SimId,
}

/// First value bound to `k` in an association sequence, if any.
pub open spec fn assoc_find<K, V>(s: Seq<(K, V)>, k: K) -> Option<V>
    decreases s.len(),
{
    if s.len() == 0 {
        None
    } else if s[0].0 == k {
        Some(s[0].1)
    } else {
        assoc_find(s.drop_first(), k)
    }
}

/// No two entries bind the same key.
pub open spec fn assoc_unique<K, V>(s: Seq<(K, V)>) -> bool {
    forall|a: int, b: int| 0 <= a < b < s.len() ==> (#[trigger] s[a]).0 != (#[trigger] s[b]).0
}

proof fn lemma_assoc_skip<K, V>(s: Seq<(K, V)>, n: int, k: K)
    requires
        0 <= n <= s.len(),
        forall|j: int| 0 <= j < n ==> (#[trigger] s[j]).0 != k,
    ensures
        assoc_find(s, k) == assoc_find(s.skip(n), k),
    decreases n,
{
    if n == 0 {
        assert(s.skip(0) =~= s);
    } else {
        let t = s.drop_first();
        assert(forall|j: int| 0 <= j < n - 1 ==> (#[trigger] t[j]).0 != k);
        lemma_assoc_skip(t, n - 1, k);
        assert(t.skip(n - 1) =~= s.skip(n));
    }
}

proof fn lemma_assoc_update<K, V>(s: Seq<(K, V)>, i: int, k: K, v: V, q: K)
    requires
        0 <= i < s.len(),
        s[i].0 == k,
        assoc_unique(s),
    ensures
        assoc_find(s.update(i, (k, v)), q) == (if q == k {
            Some(v)
        } else {
            assoc_find(s, q)
        }),
    decreases i,
{
    let u = s.update(i, (k, v));
    if i == 0 {
        if q != k {
            assert(u.drop_first() =~= s.drop_first());
        }
    } else {
        assert(s[0].0 != k);
        assert(u[0] == s[0]);
        assert(u.drop_first() =~= s.drop_first().update(i - 1, (k, v)));
        assert(assoc_unique(s.drop_first()));
        lemma_assoc_update(s.drop_first(), i - 1, k, v, q);
    }
}

proof fn lemma_assoc_push<K, V>(s: Seq<(K, V)>, k: K, v: V, q: K)
    requires
        forall|j: int| 0 <= j < s.len() ==> (#[trigger] s[j]).0 != k,
    ensures
        assoc_find(s.push((k, v)), q) == (if q == k {
            Some(v)
        } else {
            assoc_find(s, q)
        }),
    decreases s.len(),
{
    let u = s.push((k, v));
    if s.len() == 0 {
        if q != k {
            assert(u.drop_first() =~= Seq::<(K, V)>::empty());
        }
    } else {
        assert(u[0] == s[0]);
        assert(u.drop_first() =~= s.drop_first().push((k, v)));
        assert(forall|j: int|
            0 <= j < s.drop_first().len() ==> (#[trigger] s.drop_first()[j]).0 != k);
        lemma_assoc_push(s.drop_first(), k, v, q);
    }
}

/// Per-node and per-edge policies of one bus instance, with the defaults
/// applied to every node or edge that has no explicit entry.
///
/// The defaults belong to the store itself, not to the process, so several
/// bus instances in one process stay fully isolated.
pub struct PolicyStore {
    nodes: Vec<(SimId, NodePolicy)>,
    edges: Vec<(Edge, EdgePolicy)>,
    default_node: NodePolicy,
    default_edge: EdgePolicy,
}

impl PolicyStore {
    /// Entries bind each key at most once, and every loss probability held
    /// by the store is a valid fraction.
    pub closed spec fn wf(self) -> bool {
        &&& assoc_unique(self.nodes@)
        &&& assoc_unique(self.edges@)
        &&& self.default_edge.wf()
        &&& forall|i: int|
            0 <= i < self.edges@.len() ==> (#[trigger] self.edges@[i]).1.wf()
    }

    /// The node-wide default policy.
    pub closed spec fn spec_default_node(self) -> NodePolicy {
        self.default_node
    }

    /// The edge-wide default policy.
    pub closed spec fn spec_default_edge(self) -> EdgePolicy {
        self.default_edge
    }

    /// Effective policy of `id`: the explicit entry if one exists, else the
    /// default.
    pub closed spec fn spec_node_policy(self, id: SimId) -> NodePolicy {
        match assoc_find(self.nodes@, id) {
            Some(p) => p,
            None => self.default_node,
        }
    }

    /// Effective policy of the directed edge `from -> to`: the explicit
    /// entry if one exists, else the default.
    pub closed spec fn spec_edge_policy(self, from: SimId, to: SimId) -> EdgePolicy {
        match assoc_find(self.edges@, Edge { from, to }) {
            Some(p) => p,
            None => self.default_edge,
        }
    }

    /// An empty store where every node and edge falls back to the given
    /// defaults.
    pub fn new(default_node: NodePolicy, default_edge: EdgePolicy) -> (r: PolicyStore)
        requires
            default_edge.wf(),
        ensures
            r.wf(),
            r.spec_default_node() == default_node,
            r.spec_default_edge() == default_edge,
            forall|q: SimId| #[trigger] r.spec_node_policy(q) == default_node,
            forall|a: SimId, b: SimId| #[trigger] r.spec_edge_policy(a, b) == default_edge,
    {
        PolicyStore { nodes: Vec::new(), edges: Vec::new(), default_node, default_edge }
    }

    fn find_node_index(&self, id: SimId) -> (r: Option<usize>)
        ensures
            match r {
                Some(i) => i < self.nodes@.len() && self.nodes@[i as int].0 == id
                    && forall|j: int| 0 <= j < i ==> (#[trigger] self.nodes@[j]).0 != id,
                None => forall|j: int|
                    0 <= j < self.nodes@.len() ==> (#[trigger] self.nodes@[j]).0 != id,
            },
    {
        let mut i: usize = 0;
        while i < self.nodes.len()
            invariant
                i <= self.nodes@.len(),
                forall|j: int| 0 <= j < i ==> (#[trigger] self.nodes@[j]).0 != id,
            decreases self.nodes@.len() - i,
        {
            if self.nodes[i].0 == id {
                return Some(i);
            }
            i += 1;
        }
        None
    }

    fn find_edge_index(&self, key: Edge) -> (r: Option<usize>)
        ensures
            match r {
                Some(i) => i < self.edges@.len() && self.edges@[i as int].0 == key
                    && forall|j: int| 0 <= j < i ==> (#[trigger] self.edges@[j]).0 != key,
                None => forall|j: int|
                    0 <= j < self.edges@.len() ==> (#[trigger] self.edges@[j]).0 != key,
            },
    {
        let mut i: usize = 0;
        while i < self.edges.len()
            invariant
                i <= self.edges@.len(),
                forall|j: int| 0 <= j < i ==> (#[trigger] self.edges@[j]).0 != key,
            decreases self.edges@.len() - i,
        {
            if self.edges[i].0 == key {
                return Some(i);
            }
            i += 1;
        }
        None
    }

    /// Replaces the explicit policy of `id`; every other node keeps its
    /// effective policy, and the edge side of the store is untouched.
    pub fn set_node_policy(&mut self, id: SimId, policy: NodePolicy)
        requires
            old(self).wf(),
        ensures
            final(self).wf(),
            forall|q: SimId| #[trigger] final(self).spec_node_policy(q) == (if q == id {
                policy
            } else {
                old(self).spec_node_policy(q)
            }),
            forall|a: SimId, b: SimId| #[trigger] final(self).spec_edge_policy(a, b)
                == old(self).spec_edge_policy(a, b),
            final(self).spec_default_node() == old(self).spec_default_node(),
            final(self).spec_default_edge() == old(self).spec_default_edge(),
    {
        let ghost s0 = self.nodes@;
        match self.find_node_index(id) {
            Some(i) => {
                self.nodes.set(i, (id, policy));
                proof {
                    assert(forall|x: int|
                        0 <= x < s0.len() ==> (#[trigger] self.nodes@[x]).0 == s0[x].0);
                    assert forall|q: SimId| #[trigger] self.spec_node_policy(q) == (if q == id {
                        policy
                    } else {
                        old(self).spec_node_policy(q)
                    }) by {
                        lemma_assoc_update(s0, i as int, id, policy, q);
                    };
                }
            },
            None => {
                self.nodes.push((id, policy));
                proof {
                    assert forall|q: SimId| #[trigger] self.spec_node_policy(q) == (if q == id {
                        policy
                    } else {
                        old(self).spec_node_policy(q)
                    }) by {
                        lemma_assoc_push(s0, id, policy, q);
                    };
                }
            },
        }
    }

    /// Replaces the explicit policy of the directed edge `key`; every other
    /// edge keeps its effective policy, and the node side is untouched.
    pub fn set_edge_policy(&mut self, key: Edge, policy: EdgePolicy)
        requires
            old(self).wf(),
            policy.wf(),
        ensures
            final(self).wf(),
            forall|a: SimId, b: SimId| #[trigger] final(self).spec_edge_policy(a, b)
                == (if (Edge { from: a, to: b }) == key {
                policy
            } else {
                old(self).spec_edge_policy(a, b)
            }),
            forall|q: SimId| #[trigger] final(self).spec_node_policy(q)
                == old(self).spec_node_policy(q),
            final(self).spec_default_node() == old(self).spec_default_node(),
            final(self).spec_default_edge() == old(self).spec_default_edge(),
    {
        let ghost s0 = self.edges@;
        match self.find_edge_index(key) {
            Some(i) => {
                self.edges.set(i, (key, policy));
                proof {
                    assert(forall|x: int|
                        0 <= x < s0.len() ==> (#[trigger] self.edges@[x]).0 == s0[x].0);
                    assert forall|a: SimId, b: SimId| #[trigger] self.spec_edge_policy(a, b)
                        == (if (Edge { from: a, to: b }) == key {
                        policy
                    } else {
                        old(self).spec_edge_policy(a, b)
                    }) by {
                        lemma_assoc_update(s0, i as int, key, policy, Edge { from: a, to: b });
                    };
                }
            },
            None => {
                self.edges.push((key, policy));
                proof {
                    assert forall|a: SimId, b: SimId| #[trigger] self.spec_edge_policy(a, b)
                        == (if (Edge { from: a, to: b }) == key {
                        policy
                    } else {
                        old(self).spec_edge_policy(a, b)
                    }) by {
                        lemma_assoc_push(s0, key, policy, Edge { from: a, to: b });
                    };
                }
            },
        }
    }

    /// Effective policy of `id`: the explicit entry if one exists, else the
    /// default.
    pub fn effective_node_policy(&self, id: SimId) -> (r: NodePolicy)
        ensures
            r == self.spec_node_policy(id),
    {
        let ghost s = self.nodes@;
        match self.find_node_index(id) {
            Some(i) => {
                proof {
                    lemma_assoc_skip(s, i as int, id);
                    assert(s.skip(i as int)[0] == s[i as int]);
                }
                self.nodes[i].1
            },
            None => {
                proof {
                    lemma_assoc_skip(s, s.len() as int, id);
                    assert(s.skip(s.len() as int) =~= Seq::<(SimId, NodePolicy)>::empty());
                }
                self.default_node
            },
        }
    }

    /// Effective policy of the directed edge `from -> to`: the explicit
    /// entry if one exists, else the default.  The reverse direction is an
    /// independent edge.
    pub fn effective_edge_policy(&self, from: SimId, to: SimId) -> (r: EdgePolicy)
        requires
            self.wf(),
        ensures
            r == self.spec_edge_policy(from, to),
            r.wf(),
    {
        let key = Edge { from, to };
        let ghost s = self.edges@;
        match self.find_edge_index(key) {
            Some(i) => {
                proof {
                    lemma_assoc_skip(s, i as int, key);
                    assert(s.skip(i as int)[0] == s[i as int]);
                }
                self.edges[i].1
            },
            None => {
                proof {
                    lemma_assoc_skip(s, s.len() as int, key);
                    assert(s.skip(s.len() as int) =~= Seq::<(Edge, EdgePolicy)>::empty());
                }
                self.default_edge
            },
        }
    }
}

/// Sum of two durations in nanoseconds, capped at `u64::MAX`.
pub open spec fn spec_sat_add(a: u64, b: u64) -> u64 {
    if a + b > u64::MAX {
        u64::MAX
    } else {
        (a + b) as u64
    }
}

/// Sum of two durations in nanoseconds, capped at `u64::MAX`.
pub fn sat_add(a: u64, b: u64) -> (r: u64)
    ensures
        r == spec_sat_add(a, b),
{
    if a > u64::MAX - b {
        u64::MAX
    } else {
        a + b
    }
}

/// Time, in nanoseconds, that a message of `size_bytes` bytes occupies a
/// path of the given bandwidth: `size_bytes * 8 / bits_per_sec` seconds.
/// An unbounded path takes no time; a zero rate never completes, which the
/// cap at `u64::MAX` stands for.
pub open spec fn spec_transmission_delay_nanos(size_bytes: u64, bw: Bandwidth) -> u64 {
    match bw {
        Bandwidth::Unbounded => 0,
        Bandwidth::BitsPerSec(b) => if b == 0 {
            u64::MAX
        } else if size_bytes * 8 * 1_000_000_000 / (b as int) > u64::MAX {
            u64::MAX
        } else {
            (size_bytes * 8 * 1_000_000_000 / (b as int)) as u64
        },
    }
}

/// Time, in nanoseconds, that a message of `size_bytes` bytes occupies a
/// path of the given bandwidth.
pub fn transmission_delay_nanos(size_bytes: u64, bw: Bandwidth) -> (r: u64)
    ensures
        r == spec_transmission_delay_nanos(size_bytes, bw),
{
    match bw {
        Bandwidth::Unbounded => 0,
        Bandwidth::BitsPerSec(b) => {
            if b == 0 {
                u64::MAX
            } else {
                let nanos: u128 = (size_bytes as u128) * 8 * 1_000_000_000 / (b as u128);
                if nanos > u64::MAX as u128 {
                    u64::MAX
                } else {
                    nanos as u64
                }
            }
        },
    }
}

} // verus!
