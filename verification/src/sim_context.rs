use crate::error::{OpenError, SendError, ShutdownError};
use crate::msg::{HasBytesSize, Msg};
use crate::policy::{
    sat_add, spec_sat_add, spec_transmission_delay_nanos, transmission_delay_nanos, Bandwidth,
    Edge, EdgePolicy, NodePolicy, PolicyStore,
};
use crate::rng::{spec_next_state, spec_sample, SimRng};
use crate::sim_id::SimId;
use crate::time_ordered::{due_sorted, stable_insert, TimeOrdered};
use vstd::prelude::*;

verus! {

/// Lifecycle of the bus.  The transition is one-way:
/// `Running -> ShuttingDown -> Stopped`, triggered by the shutdown call.
#[derive(Clone, Copy, PartialEq, Eq, Structural, Debug)]
pub enum BusState {
    /// Accepting opens and sends; deliveries take place.
    Running,
    /// No new send or open is accepted; the queue is being drained.
    ShuttingDown,
    /// Delivery is over and every inbound channel is closed.
    Stopped,
}

/// Construction-time settings of a bus instance.
#[derive(Clone, Copy, PartialEq, Eq, Structural, Debug)]
pub struct SimConfiguration {
    /// Bound, in nanoseconds, on how long the delivery loop may sleep when
    /// no message is due.  Shorter values trade CPU for lower added latency
    /// under light load.
    pub idle_duration_nanos: u64,
    /// Seed of the packet-loss generator; a fixed seed makes a run
    /// reproducible.
    pub seed: u64,
    /// Policy applied to every node without an explicit entry.
    pub default_node_policy: NodePolicy,
    /// Policy applied to every directed edge without an explicit entry.
    pub default_edge_policy: EdgePolicy,
}

impl SimConfiguration {
    /// The default edge policy's loss probability is a valid fraction.
    pub open spec fn wf(self) -> bool {
        self.default_edge_policy.wf()
    }
}

impl Default for SimConfiguration {
    /// Unbounded bandwidth, zero latency, no loss, and an idle bound of
    /// half a millisecond.
    fn default() -> (r: SimConfiguration)
        ensures
            r == (SimConfiguration {
                idle_duration_nanos: 500_000,
                seed: 0,
                default_node_policy: NodePolicy {
                    bandwidth_up: crate::policy::Bandwidth::Unbounded,
                    bandwidth_down: crate::policy::Bandwidth::Unbounded,
                },
                default_edge_policy: EdgePolicy {
                    latency: crate::policy::Latency { nanos: 0 },
                    packet_loss: crate::policy::PacketLoss { numerator: 0, denominator: 1 },
                },
            }),
            r.wf(),
    {
        SimConfiguration {
            idle_duration_nanos: 500_000,
            seed: 0,
            default_node_policy: NodePolicy {
                bandwidth_up: crate::policy::Bandwidth::Unbounded,
                bandwidth_down: crate::policy::Bandwidth::Unbounded,
            },
            default_edge_policy: EdgePolicy {
                latency: crate::policy::Latency { nanos: 0 },
                packet_loss: crate::policy::PacketLoss { numerator: 0, denominator: 1 },
            },
        }
    }
}

struct SocketEntry<T> {
    open: bool,
    inbound: Vec<Msg<T>>,
}

/// The simulated bus: policy store, time-ordered queue, per-node inbound
/// queues and the lifecycle state.
///
/// Time is explicit.  Every operation that depends on the clock takes the
/// current reading in nanoseconds; readings must never decrease from one
/// call to the next, as a monotone clock's never do.  `advance` plays the
/// part of the delivery loop's wake-up: it moves every message due by `now`
/// into its destination's inbound queue.
pub struct SimContext<T> {
    state: BusState,
    config: SimConfiguration,
    store: PolicyStore,
    queue: TimeOrdered<T>,
    sockets: Vec<SocketEntry<T>>,
    rng: SimRng,
    advanced_to: u64,
}

impl<T> SimContext<T> {
    /// Current lifecycle state.
    pub closed spec fn spec_state(self) -> BusState {
        self.state
    }

    /// The configuration the bus was built with.
    pub closed spec fn spec_config(self) -> SimConfiguration {
        self.config
    }

    /// The policy store.
    pub closed spec fn spec_store(self) -> PolicyStore {
        self.store
    }

    /// The pending messages, in due-time order.
    pub closed spec fn spec_queue(self) -> Seq<Msg<T>> {
        self.queue@
    }

    /// The latest clock reading deliveries have been performed for.
    pub closed spec fn spec_advanced_to(self) -> u64 {
        self.advanced_to
    }

    /// State of the packet-loss generator.
    pub closed spec fn spec_rng_state(self) -> u64 {
        self.rng.state()
    }

    /// Number of identifiers handed out so far.
    pub closed spec fn spec_socket_count(self) -> int {
        self.sockets@.len() as int
    }

    /// Whether the socket of node `k` is still open.
    pub closed spec fn spec_socket_open(self, k: int) -> bool {
        self.sockets@[k].open
    }

    /// Messages delivered to node `k` and not yet received.
    pub closed spec fn spec_inbound(self, k: int) -> Seq<Msg<T>> {
        self.sockets@[k].inbound@
    }

    /// Well-formedness of node `k`'s inbound queue: delivered messages are
    /// addressed to `k`, are due by the time delivery reached, and sit in
    /// due-time order.
    pub open spec fn inbox_wf(self, k: int) -> bool {
        &&& due_sorted(self.spec_inbound(k))
        &&& forall|i: int|
            0 <= i < self.spec_inbound(k).len() ==> (#[trigger] self.spec_inbound(k)[i]).due_at
                <= self.spec_advanced_to()
        &&& forall|i: int|
            0 <= i < self.spec_inbound(k).len() ==> (#[trigger] self.spec_inbound(k)[i]).to
                == SimId(k as u64)
    }

    /// Invariant of the bus: the queue is due-sorted and holds no message
    /// due before the time already reached, every inbound queue is
    /// well-formed, the store is well-formed, and a stopped bus has nothing
    /// pending.
    pub open spec fn wf(self) -> bool {
        &&& due_sorted(self.spec_queue())
        &&& forall|i: int|
            0 <= i < self.spec_queue().len() ==> (#[trigger] self.spec_queue()[i]).due_at
                >= self.spec_advanced_to()
        &&& forall|k: int| 0 <= k < self.spec_socket_count() ==> #[trigger] self.inbox_wf(k)
        &&& self.spec_store().wf()
        &&& (self.spec_state() == BusState::Stopped ==> self.spec_queue().len() == 0)
    }

    /// A running bus with no sockets, no pending message, and the given
    /// configuration; the clock starts at zero.
    pub fn with_config(config: SimConfiguration) -> (r: SimContext<T>)
        requires
            config.wf(),
        ensures
            r.wf(),
            r.spec_state() == BusState::Running,
            r.spec_config() == config,
            r.spec_queue() == Seq::<Msg<T>>::empty(),
            r.spec_socket_count() == 0,
            r.spec_advanced_to() == 0,
            r.spec_rng_state() == config.seed,
            r.spec_store().spec_default_node() == config.default_node_policy,
            r.spec_store().spec_default_edge() == config.default_edge_policy,
            forall|q: SimId| #[trigger] r.spec_store().spec_node_policy(q)
                == config.default_node_policy,
            forall|a: SimId, b: SimId| #[trigger] r.spec_store().spec_edge_policy(a, b)
                == config.default_edge_policy,
    {
        SimContext {
            state: BusState::Running,
            config,
            store: PolicyStore::new(config.default_node_policy, config.default_edge_policy),
            queue: TimeOrdered::new(),
            sockets: Vec::new(),
            rng: SimRng::new(config.seed),
            advanced_to: 0,
        }
    }

    /// The configured idle bound, for the caller running the delivery loop.
    pub fn idle_duration_nanos(&self) -> (r: u64)
        ensures
            r == self.spec_config().idle_duration_nanos,
    {
        self.config.idle_duration_nanos
    }

    /// Current lifecycle state.
    pub fn state(&self) -> (r: BusState)
        ensures
            r == self.spec_state(),
    {
        self.state
    }

    /// The latest clock reading deliveries have been performed for.
    pub fn time_reached(&self) -> (r: u64)
        ensures
            r == self.spec_advanced_to(),
    {
        self.advanced_to
    }

    /// Due time of the earliest pending message, if any; the delivery
    /// loop's next wake-up time.
    pub fn next_due_at(&self) -> (r: Option<u64>)
        ensures
            match r {
                Some(t) => self.spec_queue().len() > 0 && t == self.spec_queue()[0].due_at,
                None => self.spec_queue().len() == 0,
            },
    {
        self.queue.peek_next_due_at()
    }

    /// Replaces the explicit policy of node `id`.  Callable at any point in
    /// the lifecycle; the policy takes effect for later sends.
    #[verifier::spinoff_prover]
    pub fn set_node_policy(&mut self, id: SimId, policy: NodePolicy)
        requires
            old(self).wf(),
        ensures
            final(self).wf(),
            final(self).spec_state() == old(self).spec_state(),
            final(self).spec_config() == old(self).spec_config(),
            final(self).spec_queue() == old(self).spec_queue(),
            final(self).spec_rng_state() == old(self).spec_rng_state(),
            final(self).spec_advanced_to() == old(self).spec_advanced_to(),
            final(self).spec_socket_count() == old(self).spec_socket_count(),
            forall|k: int|
                0 <= k < old(self).spec_socket_count() ==> #[trigger] final(self).spec_socket_open(
                    k,
                ) == old(self).spec_socket_open(k) && final(self).spec_inbound(k) == old(self).spec_inbound(k),
            forall|q: SimId| #[trigger] final(self).spec_store().spec_node_policy(q) == (if q == id {
                policy
            } else {
                old(self).spec_store().spec_node_policy(q)
            }),
            forall|a: SimId, b: SimId| #[trigger] final(self).spec_store().spec_edge_policy(a, b)
                == old(self).spec_store().spec_edge_policy(a, b),
            final(self).spec_store().spec_default_node() == old(self).spec_store().spec_default_node(),
            final(self).spec_store().spec_default_edge() == old(self).spec_store().spec_default_edge(),
    {
        self.store.set_node_policy(id, policy);
        proof {
            assert forall|k: int|
                0 <= k < self.spec_socket_count() implies #[trigger] self.inbox_wf(k) by {
                assert(old(self).inbox_wf(k));
                assert(self.spec_inbound(k) == old(self).spec_inbound(k));
            };
        }
    }

    /// Replaces the explicit policy of the directed edge `edge`.  The
    /// reverse direction is an independent edge and keeps its own policy.
    #[verifier::spinoff_prover]
    pub fn set_edge_policy(&mut self, edge: Edge, policy: EdgePolicy)
        requires
            old(self).wf(),
            policy.wf(),
        ensures
            final(self).wf(),
            final(self).spec_state() == old(self).spec_state(),
            final(self).spec_config() == old(self).spec_config(),
            final(self).spec_queue() == old(self).spec_queue(),
            final(self).spec_rng_state() == old(self).spec_rng_state(),
            final(self).spec_advanced_to() == old(self).spec_advanced_to(),
            final(self).spec_socket_count() == old(self).spec_socket_count(),
            forall|k: int|
                0 <= k < old(self).spec_socket_count() ==> #[trigger] final(self).spec_socket_open(
                    k,
                ) == old(self).spec_socket_open(k) && final(self).spec_inbound(k) == old(self).spec_inbound(k),
            forall|a: SimId, b: SimId| #[trigger] final(self).spec_store().spec_edge_policy(a, b)
                == (if (Edge { from: a, to: b }) == edge {
                policy
            } else {
                old(self).spec_store().spec_edge_policy(a, b)
            }),
            forall|q: SimId| #[trigger] final(self).spec_store().spec_node_policy(q) == old(self).spec_store().spec_node_policy(q),
            final(self).spec_store().spec_default_node() == old(self).spec_store().spec_default_node(),
            final(self).spec_store().spec_default_edge() == old(self).spec_store().spec_default_edge(),
    {
        self.store.set_edge_policy(edge, policy);
        proof {
            assert forall|k: int|
                0 <= k < self.spec_socket_count() implies #[trigger] self.inbox_wf(k) by {
                assert(old(self).inbox_wf(k));
                assert(self.spec_inbound(k) == old(self).spec_inbound(k));
            };
        }
    }

    /// Opens a socket on a fresh node identifier.  Fails once the bus is no
    /// longer running.
    #[verifier::spinoff_prover]
    pub fn open(&mut self) -> (r: Result<SimSocket, OpenError>)
        requires
            old(self).wf(),
        ensures
            final(self).wf(),
            final(self).spec_state() == old(self).spec_state(),
            final(self).spec_config() == old(self).spec_config(),
            final(self).spec_store() == old(self).spec_store(),
            final(self).spec_queue() == old(self).spec_queue(),
            final(self).spec_rng_state() == old(self).spec_rng_state(),
            final(self).spec_advanced_to() == old(self).spec_advanced_to(),
            match r {
                Ok(sock) => {
                    &&& old(self).spec_state() == BusState::Running
                    &&& sock.id == SimId(old(self).spec_socket_count() as u64)
                    &&& final(self).spec_socket_count() == old(self).spec_socket_count() + 1
                    &&& final(self).spec_socket_open(old(self).spec_socket_count())
                    &&& final(self).spec_inbound(old(self).spec_socket_count())
                        == Seq::<Msg<T>>::empty()
                    &&& forall|k: int|
                        0 <= k < old(self).spec_socket_count() ==> #[trigger] final(self).spec_socket_open(k) == old(self).spec_socket_open(k)
                            && final(self).spec_inbound(k) == old(self).spec_inbound(k)
                },
                Err(e) => {
                    &&& e == OpenError::BusClosed
                    &&& old(self).spec_state() != BusState::Running
                    &&& *final(self) == *old(self)
                },
            },
    {
        match self.state {
            BusState::Running => {
                let id = SimId(self.sockets.len() as u64);
                self.sockets.push(SocketEntry { open: true, inbound: Vec::new() });
                proof {
                    assert forall|k: int|
                        0 <= k < self.spec_socket_count() implies #[trigger] self.inbox_wf(k) by {
                        if k < old(self).spec_socket_count() {
                            assert(old(self).inbox_wf(k));
                            assert(self.spec_inbound(k) == old(self).spec_inbound(k));
                        } else {
                            assert(self.spec_inbound(k) == Seq::<Msg<T>>::empty());
                        }
                    };
                }
                Ok(SimSocket { id })
            },
            _ => Err(OpenError::BusClosed),
        }
    }

    /// Closes the socket of `id`: the identifier is released, pending
    /// inbound messages are discarded, and later deliveries to `id` are
    /// dropped silently.  Closing an unknown or already-closed identifier
    /// does nothing.
    #[verifier::spinoff_prover]
    pub fn close(&mut self, id: SimId)
        requires
            old(self).wf(),
        ensures
            final(self).wf(),
            final(self).spec_state() == old(self).spec_state(),
            final(self).spec_config() == old(self).spec_config(),
            final(self).spec_store() == old(self).spec_store(),
            final(self).spec_queue() == old(self).spec_queue(),
            final(self).spec_rng_state() == old(self).spec_rng_state(),
            final(self).spec_advanced_to() == old(self).spec_advanced_to(),
            final(self).spec_socket_count() == old(self).spec_socket_count(),
            if id.0 < old(self).spec_socket_count() {
                &&& !final(self).spec_socket_open(id.0 as int)
                &&& final(self).spec_inbound(id.0 as int) == Seq::<Msg<T>>::empty()
                &&& forall|k: int|
                    0 <= k < old(self).spec_socket_count() && k != id.0 ==> #[trigger] final(self).spec_socket_open(k) == old(self).spec_socket_open(k)
                        && final(self).spec_inbound(k) == old(self).spec_inbound(k)
            } else {
                *final(self) == *old(self)
            },
    {
        let n = self.sockets.len();
        if id.0 < n as u64 {
            let i = id.0 as usize;
            let entry = entry_mut(&mut self.sockets, i);
            entry.open = false;
            entry.inbound = Vec::new();
            proof {
                assert forall|k: int|
                    0 <= k < self.spec_socket_count() implies #[trigger] self.inbox_wf(k) by {
                    if k != i {
                        assert(old(self).inbox_wf(k));
                        assert(self.spec_inbound(k) == old(self).spec_inbound(k));
                    } else {
                        assert(self.spec_inbound(k) == Seq::<Msg<T>>::empty());
                    }
                };
            }
        }
    }
}

impl<T> SimContext<T> {
    /// Total synthetic delay of a message of `size_bytes` bytes from `from`
    /// to `to`: upload transmission time, plus the edge's fixed latency,
    /// plus download transmission time, each sum capped at `u64::MAX`.
    pub open spec fn spec_total_delay(self, from: SimId, to: SimId, size_bytes: u64) -> u64 {
        spec_sat_add(
            spec_sat_add(
                spec_transmission_delay_nanos(
                    size_bytes,
                    self.spec_store().spec_node_policy(from).bandwidth_up,
                ),
                self.spec_store().spec_edge_policy(from, to).latency.nanos,
            ),
            spec_transmission_delay_nanos(
                size_bytes,
                self.spec_store().spec_node_policy(to).bandwidth_down,
            ),
        )
    }

    /// Delivery time of a message sent at `now`: the clock reading plus the
    /// total delay.
    pub open spec fn spec_due_at(self, from: SimId, to: SimId, size_bytes: u64, now: u64) -> u64 {
        spec_sat_add(now, self.spec_total_delay(from, to, size_bytes))
    }

    /// Whether the next send from `from` to `to` falls to the packet-loss
    /// roll: one sample of the generator lands below the edge's loss
    /// fraction.
    pub open spec fn spec_send_dropped(self, from: SimId, to: SimId) -> bool {
        spec_sample(
            self.spec_rng_state(),
            self.spec_store().spec_edge_policy(from, to).packet_loss.denominator,
        ) < self.spec_store().spec_edge_policy(from, to).packet_loss.numerator
    }

    /// The envelope a send at `now` builds around `payload`.
    pub open spec fn spec_sent_msg(
        self,
        from: SimId,
        to: SimId,
        size_bytes: u64,
        now: u64,
        payload: T,
    ) -> Msg<T> {
        Msg {
            from,
            to,
            size_bytes,
            created_at: now,
            due_at: self.spec_due_at(from, to, size_bytes, now),
            payload,
        }
    }
}

impl<T> SimContext<T> {
    /// Performs every delivery due by clock reading `now`: each pending
    /// message whose due time has elapsed moves, in due-time order, into
    /// its destination's inbound queue.  A message addressed to a node that
    /// was never opened, or whose socket has been closed, is dropped
    /// silently.  This is the delivery loop's work; the caller runs it on
    /// every wake-up.
    #[verifier::loop_isolation(false)]
    #[verifier::rlimit(60)]
    #[verifier::spinoff_prover]
    pub fn advance(&mut self, now: u64)
        requires
            old(self).wf(),
            now >= old(self).spec_advanced_to(),
        ensures
            final(self).wf(),
            final(self).spec_advanced_to() == now,
            final(self).spec_state() == old(self).spec_state(),
            final(self).spec_config() == old(self).spec_config(),
            final(self).spec_store() == old(self).spec_store(),
            final(self).spec_rng_state() == old(self).spec_rng_state(),
            final(self).spec_socket_count() == old(self).spec_socket_count(),
            forall|k: int|
                0 <= k < old(self).spec_socket_count() ==> #[trigger] final(self).spec_socket_open(
                    k,
                ) == old(self).spec_socket_open(k),
            final(self).spec_queue() == old(self).spec_queue().filter(still_pending(now)),
            forall|k: int|
                0 <= k < old(self).spec_socket_count() ==> #[trigger] final(self).spec_inbound(k)
                    == old(self).spec_inbound(k) + (if old(self).spec_socket_open(k) {
                    old(self).spec_queue().filter(delivered_to(now, k))
                } else {
                    Seq::<Msg<T>>::empty()
                }),
    {
        self.advanced_to = now;
        let ghost q0 = old(self).spec_queue();
        let ghost mut done: Seq<Msg<T>> = Seq::empty();
        proof {
            assert(Seq::<Msg<T>>::empty() + q0 =~= q0);
            assert(done + self.spec_queue() == q0);
            assert forall|k: int|
                0 <= k < self.spec_socket_count() implies #[trigger] self.inbox_wf(k) by {
                assert(old(self).inbox_wf(k));
                assert(self.spec_inbound(k) == old(self).spec_inbound(k));
            };
            assert forall|k: int, i: int, j: int|
                0 <= k < self.spec_socket_count() && 0 <= i < self.spec_inbound(k).len() && 0 <= j
                    < self.spec_queue().len() implies (#[trigger] self.spec_inbound(k)[i]).due_at
                <= (#[trigger] self.spec_queue()[j]).due_at by {
                assert(old(self).inbox_wf(k));
                assert(old(self).spec_inbound(k)[i].due_at <= old(self).spec_advanced_to());
                assert(old(self).spec_queue()[j].due_at >= old(self).spec_advanced_to());
            };
        }
        while self.queue.has_due(now)
            invariant
                self.spec_state() == old(self).spec_state(),
                self.spec_config() == old(self).spec_config(),
                self.spec_store() == old(self).spec_store(),
                self.spec_rng_state() == old(self).spec_rng_state(),
                self.spec_advanced_to() == now,
                self.spec_socket_count() == old(self).spec_socket_count(),
                forall|k: int|
                    0 <= k < old(self).spec_socket_count() ==> #[trigger] self.spec_socket_open(k)
                        == old(self).spec_socket_open(k),
                due_sorted(self.spec_queue()),
                q0 == done + self.spec_queue(),
                forall|i: int| 0 <= i < done.len() ==> (#[trigger] done[i]).due_at <= now,
                forall|k: int|
                    0 <= k < old(self).spec_socket_count() ==> #[trigger] self.spec_inbound(k)
                        == old(self).spec_inbound(k) + (if old(self).spec_socket_open(k) {
                        done.filter(delivered_to(now, k))
                    } else {
                        Seq::<Msg<T>>::empty()
                    }),
                forall|k: int| 0 <= k < self.spec_socket_count() ==> #[trigger] self.inbox_wf(k),
                forall|k: int, i: int, j: int|
                    0 <= k < self.spec_socket_count() && 0 <= i < self.spec_inbound(k).len() && 0
                        <= j < self.spec_queue().len() ==> (#[trigger] self.spec_inbound(
                        k,
                    )[i]).due_at <= (#[trigger] self.spec_queue()[j]).due_at,
            decreases self.spec_queue().len(),
        {
            let ghost pre = *self;
            let ghost qpre = self.spec_queue();
            let m = self.queue.pop_front_due(now);
            let dest64 = m.to.0;
            let ghost destk = dest64 as int;
            if dest64 < self.sockets.len() as u64 {
                let d = dest64 as usize;
                if entry_ref(&self.sockets, d).open {
                    let entry = entry_mut(&mut self.sockets, d);
                    entry.inbound.push(m);
                }
            }
            proof {
                let routed = destk < pre.spec_socket_count() && pre.spec_socket_open(
                    destk,
                );
                let donep = done.push(m);
                assert(donep + self.spec_queue() =~= done + qpre);
                assert forall|k: int|
                    0 <= k < old(self).spec_socket_count() implies #[trigger] self
                    .spec_socket_open(k) == old(self).spec_socket_open(k) by {
                    assert(self.spec_socket_open(k) == pre.spec_socket_open(k));
                };
                assert forall|k: int|
                    0 <= k < old(self).spec_socket_count() implies #[trigger] self
                    .spec_inbound(k) == old(self).spec_inbound(k) + (if old(self).spec_socket_open(k) {
                    donep.filter(delivered_to(now, k))
                } else {
                    Seq::<Msg<T>>::empty()
                }) by {
                    let pk = delivered_to::<T>(now, k);
                    lemma_filter_push(done, pk, m);
                    if k == destk {
                        if old(self).spec_socket_open(k) {
                            assert(pk(m));
                            Seq::push_distributes_over_add(
                                old(self).spec_inbound(k),
                                done.filter(pk),
                                m,
                            );
                            assert(self.spec_inbound(k) == pre.spec_inbound(k).push(m));
                        } else {
                            assert(self.spec_inbound(k) == pre.spec_inbound(k));
                        }
                    } else {
                        assert(m.to == SimId(dest64));
                        assert(!pk(m));
                        assert(self.spec_inbound(k) == pre.spec_inbound(k));
                    }
                };
                assert forall|k: int|
                    0 <= k < self.spec_socket_count() implies #[trigger] self.inbox_wf(
                    k,
                ) by {
                    assert(pre.inbox_wf(k));
                    if k == destk && routed {
                        let nb = self.spec_inbound(k);
                        assert(nb == pre.spec_inbound(k).push(m));
                        assert(m.due_at <= now);
                        assert(m.to == SimId(k as u64));
                        assert forall|a: int, b: int|
                            0 <= a < b < nb.len() implies (#[trigger] nb[a]).due_at <= (
                        #[trigger] nb[b]).due_at by {
                            if b == nb.len() - 1 {
                                assert(pre.spec_inbound(k)[a].due_at <= qpre[0].due_at);
                            }
                        };
                    } else {
                        assert(self.spec_inbound(k) == pre.spec_inbound(k));
                    }
                };
                assert forall|k: int, i: int, j: int|
                    0 <= k < self.spec_socket_count() && 0 <= i < self.spec_inbound(
                        k,
                    ).len() && 0 <= j < self.spec_queue().len() implies (
                #[trigger] self.spec_inbound(k)[i]).due_at <= (#[trigger] self.spec_queue()[j]).due_at by {
                    assert(self.spec_queue()[j] == qpre[j + 1]);
                    assert(qpre[0].due_at <= qpre[j + 1].due_at);
                    if k == destk && routed && i == self.spec_inbound(k).len() - 1 {
                        assert(self.spec_inbound(k)[i] == m);
                    } else {
                        assert(self.spec_inbound(k)[i] == pre.spec_inbound(k)[i]);
                        assert(pre.spec_inbound(k)[i].due_at <= qpre[j + 1].due_at);
                    }
                };
                done = donep;
            }
        }
        proof {
            let fp = still_pending::<T>(now);
            assert forall|j: int| 0 <= j < self.spec_queue().len() implies fp(
                #[trigger] self.spec_queue()[j],
            ) by {
                assert(self.spec_queue()[0].due_at > now);
                assert(self.spec_queue()[0].due_at <= self.spec_queue()[j].due_at);
            };
            assert(forall|i: int| 0 <= i < done.len() ==> !fp(#[trigger] done[i]));
            Seq::filter_distributes_over_add(done, self.spec_queue(), fp);
            lemma_filter_none(done, fp);
            lemma_filter_all(self.spec_queue(), fp);
            assert(q0.filter(fp) == done.filter(fp) + self.spec_queue().filter(fp));
            assert(Seq::<Msg<T>>::empty() + self.spec_queue() =~= self.spec_queue());
            assert(self.spec_queue() == q0.filter(fp));
            assert forall|i: int|
                0 <= i < self.spec_queue().len() implies (#[trigger] self.spec_queue()[i]).due_at
                >= self.spec_advanced_to() by {
                assert(fp(self.spec_queue()[i]));
            };
            assert forall|k: int|
                0 <= k < old(self).spec_socket_count() implies #[trigger] self.spec_inbound(k)
                == old(self).spec_inbound(k) + (if old(self).spec_socket_open(k) {
                q0.filter(delivered_to(now, k))
            } else {
                Seq::<Msg<T>>::empty()
            }) by {
                let pk = delivered_to::<T>(now, k);
                Seq::filter_distributes_over_add(done, self.spec_queue(), pk);
                assert forall|j: int| 0 <= j < self.spec_queue().len() implies !pk(
                    #[trigger] self.spec_queue()[j],
                ) by {
                    assert(fp(self.spec_queue()[j]));
                    assert(self.spec_queue()[j].due_at > now);
                };
                lemma_filter_none(self.spec_queue(), pk);
                assert(q0.filter(pk) == done.filter(pk) + Seq::<Msg<T>>::empty());
                assert(done.filter(pk) + Seq::<Msg<T>>::empty() =~= done.filter(pk));
                assert(q0.filter(pk) == done.filter(pk));
                assert(self.spec_inbound(k) == old(self).spec_inbound(k) + (if old(self).spec_socket_open(k) {
                    done.filter(delivered_to(now, k))
                } else {
                    Seq::<Msg<T>>::empty()
                }));
            };
            if self.spec_state() == BusState::Stopped {
                assert(q0.len() == 0);
                assert(self.spec_queue().len() == 0);
            }
        }
    }

    /// Shuts the bus down: messages already due at `now` are delivered,
    /// everything still pending is discarded, and the bus stops — no
    /// further send or open is accepted, and receivers see end-of-stream
    /// once their inbound queue is drained.  Only the first call takes
    /// effect; later calls fail and change nothing.
    #[verifier::spinoff_prover]
    pub fn shutdown(&mut self, now: u64) -> (r: Result<(), ShutdownError>)
        requires
            old(self).wf(),
            now >= old(self).spec_advanced_to(),
        ensures
            final(self).wf(),
            final(self).spec_config() == old(self).spec_config(),
            final(self).spec_store() == old(self).spec_store(),
            final(self).spec_rng_state() == old(self).spec_rng_state(),
            final(self).spec_socket_count() == old(self).spec_socket_count(),
            forall|k: int|
                0 <= k < old(self).spec_socket_count() ==> #[trigger] final(self).spec_socket_open(
                    k,
                ) == old(self).spec_socket_open(k),
            match r {
                Ok(_) => {
                    &&& old(self).spec_state() == BusState::Running
                    &&& final(self).spec_state() == BusState::Stopped
                    &&& final(self).spec_queue().len() == 0
                    &&& final(self).spec_advanced_to() == now
                    &&& forall|k: int|
                        0 <= k < old(self).spec_socket_count() ==> #[trigger] final(self).spec_inbound(k) == old(self).spec_inbound(k) + (if old(self).spec_socket_open(k) {
                            old(self).spec_queue().filter(delivered_to(now, k))
                        } else {
                            Seq::<Msg<T>>::empty()
                        })
                },
                Err(e) => {
                    &&& e == ShutdownError::AlreadyShutdown
                    &&& old(self).spec_state() != BusState::Running
                    &&& *final(self) == *old(self)
                },
            },
    {
        match self.state {
            BusState::Running => {
                self.advance(now);
                let ghost mid = *self;
                self.queue.clear();
                self.state = BusState::Stopped;
                proof {
                    assert forall|k: int|
                        0 <= k < self.spec_socket_count() implies #[trigger] self.inbox_wf(k) by {
                        assert(mid.inbox_wf(k));
                        assert(self.spec_inbound(k) == mid.spec_inbound(k));
                        assert(self.spec_advanced_to() == mid.spec_advanced_to());
                    };
                    assert forall|k: int|
                        0 <= k < old(self).spec_socket_count() implies #[trigger] self
                        .spec_socket_open(k) == old(self).spec_socket_open(k) by {
                        assert(mid.spec_socket_open(k) == old(self).spec_socket_open(k));
                        assert(self.spec_socket_open(k) == mid.spec_socket_open(k));
                    };
                    assert forall|k: int|
                        0 <= k < old(self).spec_socket_count() implies #[trigger] self.spec_inbound(
                        k,
                    ) == old(self).spec_inbound(k) + (if old(self).spec_socket_open(k) {
                        old(self).spec_queue().filter(delivered_to(now, k))
                    } else {
                        Seq::<Msg<T>>::empty()
                    }) by {
                        assert(mid.spec_inbound(k) == old(self).spec_inbound(k) + (if old(self).spec_socket_open(k) {
                            old(self).spec_queue().filter(delivered_to(now, k))
                        } else {
                            Seq::<Msg<T>>::empty()
                        }));
                        assert(self.spec_inbound(k) == mid.spec_inbound(k));
                    };
                }
                Ok(())
            },
            _ => Err(ShutdownError::AlreadyShutdown),
        }
    }
}

impl<T: HasBytesSize> SimContext<T> {
    /// Accepts a message from `from` to `to` at clock reading `now`.
    ///
    /// A bus that is no longer running rejects the send.  Otherwise the
    /// packet-loss roll decides: the message is either dropped silently —
    /// the send still succeeds, as on a real unreliable transport — or
    /// enqueued with its delivery time computed from the effective
    /// policies.  A destination that was never opened, or closed since, is
    /// not an error either: the message is dropped in transit at delivery
    /// time.
    #[verifier::spinoff_prover]
    pub fn send(&mut self, from: SimId, to: SimId, payload: T, now: u64) -> (r: Result<
        (),
        SendError,
    >)
        requires
            old(self).wf(),
            now >= old(self).spec_advanced_to(),
        ensures
            final(self).wf(),
            final(self).spec_state() == old(self).spec_state(),
            final(self).spec_config() == old(self).spec_config(),
            final(self).spec_store() == old(self).spec_store(),
            final(self).spec_advanced_to() == old(self).spec_advanced_to(),
            final(self).spec_socket_count() == old(self).spec_socket_count(),
            forall|k: int|
                0 <= k < old(self).spec_socket_count() ==> #[trigger] final(self).spec_socket_open(k) == old(self).spec_socket_open(k)
                    && final(self).spec_inbound(k) == old(self).spec_inbound(k),
            match r {
                Ok(_) => {
                    &&& old(self).spec_state() == BusState::Running
                    &&& final(self).spec_rng_state() == spec_next_state(
                        old(self).spec_rng_state(),
                    )
                    &&& final(self).spec_queue() == (if old(self).spec_send_dropped(from, to) {
                        old(self).spec_queue()
                    } else {
                        stable_insert(
                            old(self).spec_queue(),
                            old(self).spec_sent_msg(
                                from,
                                to,
                                payload.spec_bytes_size(),
                                now,
                                payload,
                            ),
                        )
                    })
                },
                Err(e) => {
                    &&& e == SendError::BusClosed
                    &&& old(self).spec_state() != BusState::Running
                    &&& *final(self) == *old(self)
                },
            },
    {
        match self.state {
            BusState::Running => {},
            _ => {
                return Err(SendError::BusClosed);
            },
        }
        let size = payload.bytes_size();
        let up = self.store.effective_node_policy(from);
        let down = self.store.effective_node_policy(to);
        let edge = self.store.effective_edge_policy(from, to);
        let delay = sat_add(
            sat_add(transmission_delay_nanos(size, up.bandwidth_up), edge.latency.nanos),
            transmission_delay_nanos(size, down.bandwidth_down),
        );
        let due = sat_add(now, delay);
        let roll = self.rng.sample(edge.packet_loss.denominator);
        if roll < edge.packet_loss.numerator {
            proof {
            assert forall|k: int|
                0 <= k < self.spec_socket_count() implies #[trigger] self.inbox_wf(k) by {
                assert(old(self).inbox_wf(k));
                assert(self.spec_inbound(k) == old(self).spec_inbound(k));
            };
            }
            return Ok(());
        }
        let msg = Msg { from, to, size_bytes: size, created_at: now, due_at: due, payload };
        self.queue.insert(msg);
        proof {
            let q0 = old(self).spec_queue();
            assert forall|i: int|
                0 <= i < self.spec_queue().len() implies (#[trigger] self.spec_queue()[i]).due_at
                >= self.spec_advanced_to() by {
                let x = self.spec_queue()[i];
                if x == msg {
                } else {
                    assert(q0.contains(x));
                    let j = choose|j: int| 0 <= j < q0.len() && q0[j] == x;
                    assert(q0[j].due_at >= old(self).spec_advanced_to());
                }
            };
            assert forall|k: int|
                0 <= k < self.spec_socket_count() implies #[trigger] self.inbox_wf(k) by {
                assert(old(self).inbox_wf(k));
                assert(self.spec_inbound(k) == old(self).spec_inbound(k));
            };
        }
        Ok(())
    }
}

/// Messages still pending after deliveries for clock reading `now`: those
/// due later than `now`.
pub open spec fn still_pending<T>(now: u64) -> spec_fn(Msg<T>) -> bool {
    |m: Msg<T>| m.due_at > now
}

/// Messages a delivery pass for clock reading `now` moves to node `k`:
/// those due by `now` and addressed to `k`.
pub open spec fn delivered_to<T>(now: u64, k: int) -> spec_fn(Msg<T>) -> bool {
    |m: Msg<T>| m.due_at <= now && m.to == SimId(k as u64)
}

proof fn lemma_filter_push<A>(s: Seq<A>, p: spec_fn(A) -> bool, a: A)
    ensures
        s.push(a).filter(p) == (if p(a) {
            s.filter(p).push(a)
        } else {
            s.filter(p)
        }),
{
    reveal(Seq::filter);
    let u = s.push(a);
    assert(u.drop_last() =~= s);
    assert(u.last() == a);
}

proof fn lemma_filter_none<A>(s: Seq<A>, p: spec_fn(A) -> bool)
    requires
        forall|i: int| 0 <= i < s.len() ==> !p(#[trigger] s[i]),
    ensures
        s.filter(p) == Seq::<A>::empty(),
    decreases s.len(),
{
    reveal(Seq::filter);
    if s.len() == 0 {
        assert(s =~= Seq::<A>::empty());
    } else {
        lemma_filter_none(s.drop_last(), p);
        assert(!p(s.last()));
    }
}

proof fn lemma_filter_all<A>(s: Seq<A>, p: spec_fn(A) -> bool)
    requires
        forall|i: int| 0 <= i < s.len() ==> p(#[trigger] s[i]),
    ensures
        s.filter(p) == s,
    decreases s.len(),
{
    reveal(Seq::filter);
    if s.len() == 0 {
    } else {
        lemma_filter_all(s.drop_last(), p);
        assert(p(s.last()));
        assert(s.drop_last().push(s.last()) =~= s);
    }
}

fn entry_ref<T>(v: &Vec<SocketEntry<T>>, i: usize) -> (e: &SocketEntry<T>)
    requires
        i < v@.len(),
    ensures
        *e == v@[i as int],
{
    &v[i]
}

fn entry_mut<T>(v: &mut Vec<SocketEntry<T>>, i: usize) -> (e: &mut SocketEntry<T>)
    requires
        i < old(v)@.len(),
    ensures
        *e == old(v)@[i as int],
        final(v)@ == old(v)@.update(i as int, *final(e)),
{
    &mut v[i]
}

/// Handle of one simulated node: the node's identifier, bound to the bus it
/// was opened on.
pub struct SimSocket {
    /// Identifier the socket was opened on.
    pub id: SimId,
}

impl SimSocket {
    /// A handle for `id`.
    pub fn new(id: SimId) -> (r: SimSocket)
        ensures
            r.id == id,
    {
        SimSocket { id }
    }

    /// The node identifier this socket is bound to.
    pub fn id(&self) -> (r: SimId)
        ensures
            r == self.id,
    {
        self.id
    }

    /// Sends `msg` to node `to` at clock reading `now`, with this socket's
    /// node as the sender.  Fails with `BusClosed` once the bus is no
    /// longer running; a successful send may still be dropped by the
    /// packet-loss roll or by an unreachable destination, silently.
    #[verifier::spinoff_prover]
    pub fn send_to<T: HasBytesSize>(
        &self,
        ctx: &mut SimContext<T>,
        to: SimId,
        msg: T,
        now: u64,
    ) -> (r: Result<(), SendError>)
        requires
            old(ctx).wf(),
            now >= old(ctx).spec_advanced_to(),
        ensures
            final(ctx).wf(),
            final(ctx).spec_state() == old(ctx).spec_state(),
            final(ctx).spec_config() == old(ctx).spec_config(),
            final(ctx).spec_store() == old(ctx).spec_store(),
            final(ctx).spec_advanced_to() == old(ctx).spec_advanced_to(),
            final(ctx).spec_socket_count() == old(ctx).spec_socket_count(),
            forall|k: int|
                0 <= k < old(ctx).spec_socket_count() ==> #[trigger] final(ctx).spec_socket_open(k)
                    == old(ctx).spec_socket_open(k) && final(ctx).spec_inbound(k) == old(ctx).spec_inbound(k),
            match r {
                Ok(_) => {
                    &&& old(ctx).spec_state() == BusState::Running
                    &&& final(ctx).spec_rng_state() == spec_next_state(old(ctx).spec_rng_state())
                    &&& final(ctx).spec_queue() == (if old(ctx).spec_send_dropped(self.id, to) {
                        old(ctx).spec_queue()
                    } else {
                        stable_insert(
                            old(ctx).spec_queue(),
                            old(ctx).spec_sent_msg(self.id, to, msg.spec_bytes_size(), now, msg),
                        )
                    })
                },
                Err(e) => {
                    &&& e == SendError::BusClosed
                    &&& old(ctx).spec_state() != BusState::Running
                    &&& *final(ctx) == *old(ctx)
                },
            },
    {
        ctx.send(self.id, to, msg, now)
    }

    /// Takes the next message delivered to this socket, if any, as the
    /// sender's identifier and the payload.
    ///
    /// `None` means there is nothing to take right now: on a running bus
    /// the caller may try again later, while once the bus has stopped no
    /// further message can arrive, so `None` is the end-of-stream signal.
    #[verifier::spinoff_prover]
    pub fn recv<T>(&self, ctx: &mut SimContext<T>) -> (r: Option<(SimId, T)>)
        requires
            old(ctx).wf(),
        ensures
            final(ctx).wf(),
            final(ctx).spec_state() == old(ctx).spec_state(),
            final(ctx).spec_config() == old(ctx).spec_config(),
            final(ctx).spec_store() == old(ctx).spec_store(),
            final(ctx).spec_rng_state() == old(ctx).spec_rng_state(),
            final(ctx).spec_advanced_to() == old(ctx).spec_advanced_to(),
            final(ctx).spec_queue() == old(ctx).spec_queue(),
            final(ctx).spec_socket_count() == old(ctx).spec_socket_count(),
            forall|k: int|
                0 <= k < old(ctx).spec_socket_count() ==> #[trigger] final(ctx).spec_socket_open(k)
                    == old(ctx).spec_socket_open(k),
            if self.id.0 < old(ctx).spec_socket_count() && old(ctx).spec_inbound(
                self.id.0 as int,
            ).len() > 0 {
                &&& r == Some(
                    (
                        old(ctx).spec_inbound(self.id.0 as int)[0].from,
                        old(ctx).spec_inbound(self.id.0 as int)[0].payload,
                    ),
                )
                &&& final(ctx).spec_inbound(self.id.0 as int) == old(ctx).spec_inbound(
                    self.id.0 as int,
                ).drop_first()
                &&& forall|k: int|
                    0 <= k < old(ctx).spec_socket_count() && k != self.id.0 as int
                        ==> #[trigger] final(ctx).spec_inbound(k) == old(ctx).spec_inbound(k)
            } else {
                &&& r == None::<(SimId, T)>
                &&& *final(ctx) == *old(ctx)
            },
    {
        let idv = self.id.0;
        if idv < ctx.sockets.len() as u64 {
            let d = idv as usize;
            if entry_ref(&ctx.sockets, d).inbound.len() > 0 {
                let ghost inb0 = ctx.spec_inbound(d as int);
                let entry = entry_mut(&mut ctx.sockets, d);
                let m = entry.inbound.remove(0);
                proof {
                    assert(ctx.spec_inbound(d as int) =~= inb0.drop_first());
                    assert forall|k: int|
                        0 <= k < ctx.spec_socket_count() implies #[trigger] ctx.inbox_wf(k) by {
                        assert(old(ctx).inbox_wf(k));
                        if k == d {
                            assert(ctx.spec_inbound(k) == inb0.drop_first());
                            assert(forall|x: int|
                                0 <= x < ctx.spec_inbound(k).len() ==> #[trigger] ctx.spec_inbound(
                                    k,
                                )[x] == inb0[x + 1]);
                        } else {
                            assert(ctx.spec_inbound(k) == old(ctx).spec_inbound(k));
                        }
                    };
                }
                return Some((m.from, m.payload));
            }
        }
        None
    }
}

/// With unbounded bandwidth at both endpoints the only delay a message
/// experiences is the directed edge's fixed latency, so its delivery time
/// is its creation time plus that latency.
pub proof fn lemma_latency_only_delay<T>(
    ctx: SimContext<T>,
    from: SimId,
    to: SimId,
    size_bytes: u64,
    now: u64,
)
    requires
        ctx.spec_store().spec_node_policy(from).bandwidth_up == Bandwidth::Unbounded,
        ctx.spec_store().spec_node_policy(to).bandwidth_down == Bandwidth::Unbounded,
    ensures
        ctx.spec_total_delay(from, to, size_bytes) == ctx.spec_store().spec_edge_policy(
            from,
            to,
        ).latency.nanos,
        now + ctx.spec_store().spec_edge_policy(from, to).latency.nanos <= u64::MAX ==> ctx
            .spec_due_at(from, to, size_bytes, now) == now + ctx.spec_store().spec_edge_policy(
            from,
            to,
        ).latency.nanos,
{
}

/// With zero edge latency and an unbounded download path, the whole delay
/// of a message is the time its bytes occupy the sender's upload path:
/// `size_bytes * 8 / bandwidth_up` seconds.
pub proof fn lemma_upload_delay<T>(ctx: SimContext<T>, from: SimId, to: SimId, size_bytes: u64)
    requires
        ctx.spec_store().spec_edge_policy(from, to).latency.nanos == 0,
        ctx.spec_store().spec_node_policy(to).bandwidth_down == Bandwidth::Unbounded,
    ensures
        ctx.spec_total_delay(from, to, size_bytes) == spec_transmission_delay_nanos(
            size_bytes,
            ctx.spec_store().spec_node_policy(from).bandwidth_up,
        ),
{
}

/// For one destination, deliveries keep due-time order: of two messages
/// sitting in a node's inbound queue, the one due strictly earlier stands
/// strictly earlier in the queue — and both are addressed to that node.
pub proof fn lemma_earlier_due_delivered_first<T>(ctx: SimContext<T>, k: int, i: int, j: int)
    requires
        ctx.wf(),
        0 <= k < ctx.spec_socket_count(),
        0 <= i < ctx.spec_inbound(k).len(),
        0 <= j < ctx.spec_inbound(k).len(),
        ctx.spec_inbound(k)[i].due_at < ctx.spec_inbound(k)[j].due_at,
    ensures
        i < j,
        ctx.spec_inbound(k)[i].to == SimId(k as u64),
        ctx.spec_inbound(k)[j].to == SimId(k as u64),
{
    assert(ctx.inbox_wf(k));
    if j < i {
        assert(ctx.spec_inbound(k)[j].due_at <= ctx.spec_inbound(k)[i].due_at);
    }
}

/// A stopped bus has no message in flight.  Together with the contracts of
/// `send`, `open` and `advance` — all of which leave a stopped bus
/// unchanged — this means a socket's inbound queue can only shrink after
/// shutdown, so every receiver reaches end-of-stream after draining what
/// was delivered: no `recv` caller waits forever.
pub proof fn lemma_stopped_no_pending<T>(ctx: SimContext<T>)
    requires
        ctx.wf(),
        ctx.spec_state() == BusState::Stopped,
    ensures
        ctx.spec_queue().len() == 0,
{
}

} // verus!
