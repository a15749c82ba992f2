use netsim::{
    Bandwidth, BusState, Edge, EdgePolicy, Latency, NodePolicy, OpenError, PacketLoss, SendError,
    ShutdownError, SimConfiguration, SimContext, SimSocket,
};

const MS: u64 = 1_000_000;

fn lossless(latency_ms: u64) -> EdgePolicy {
    EdgePolicy { latency: Latency { nanos: latency_ms * MS }, packet_loss: PacketLoss::none() }
}

#[test]
fn message_arrives_after_edge_latency() {
    // One 8-byte message over a 60 ms edge with unbounded bandwidth and no
    // loss: it is deliverable exactly 60 ms after the send, not before.
    let mut ctx: SimContext<Vec<u8>> = SimContext::with_config(SimConfiguration::default());
    let a = ctx.open().unwrap();
    let b = ctx.open().unwrap();
    ctx.set_edge_policy(Edge { from: a.id(), to: b.id() }, lossless(60));

    a.send_to(&mut ctx, b.id(), vec![0u8; 8], 0).unwrap();
    assert_eq!(ctx.next_due_at(), Some(60 * MS));

    ctx.advance(60 * MS - 1);
    assert_eq!(b.recv(&mut ctx), None);

    ctx.advance(60 * MS);
    let (from, payload) = b.recv(&mut ctx).unwrap();
    assert_eq!(from, a.id());
    assert_eq!(payload.len(), 8);
    assert_eq!(b.recv(&mut ctx), None);
}

#[test]
fn latency_is_the_whole_delay_when_bandwidth_unbounded() {
    // Delivery latency equals the configured edge latency exactly: the due
    // time of the queued message is the send time plus the latency.
    let mut ctx: SimContext<Vec<u8>> = SimContext::with_config(SimConfiguration::default());
    let a = ctx.open().unwrap();
    let b = ctx.open().unwrap();
    ctx.set_edge_policy(Edge { from: a.id(), to: b.id() }, lossless(17));

    let sent_at: u64 = 5 * MS;
    a.send_to(&mut ctx, b.id(), vec![1, 2, 3], sent_at).unwrap();
    assert_eq!(ctx.next_due_at(), Some(sent_at + 17 * MS));
}

#[test]
fn upload_delay_matches_bandwidth_formula() {
    // 1000 bytes at 8000 bits per second and no other delay: the message
    // occupies the upload path for exactly 1000 * 8 / 8000 = 1 second.
    let mut ctx: SimContext<Vec<u8>> = SimContext::with_config(SimConfiguration::default());
    let a = ctx.open().unwrap();
    let b = ctx.open().unwrap();
    ctx.set_node_policy(
        a.id(),
        NodePolicy {
            bandwidth_up: Bandwidth::BitsPerSec(8_000),
            bandwidth_down: Bandwidth::Unbounded,
        },
    );

    a.send_to(&mut ctx, b.id(), vec![0u8; 1000], 0).unwrap();
    assert_eq!(ctx.next_due_at(), Some(1_000_000_000));

    ctx.advance(999_999_999);
    assert_eq!(b.recv(&mut ctx), None);
    ctx.advance(1_000_000_000);
    assert!(b.recv(&mut ctx).is_some());
}

#[test]
fn zero_bandwidth_never_completes() {
    // A zero rate stands for a transfer that never finishes: the due time
    // saturates at the largest representable instant.
    let mut ctx: SimContext<Vec<u8>> = SimContext::with_config(SimConfiguration::default());
    let a = ctx.open().unwrap();
    let b = ctx.open().unwrap();
    ctx.set_node_policy(
        a.id(),
        NodePolicy { bandwidth_up: Bandwidth::BitsPerSec(0), bandwidth_down: Bandwidth::Unbounded },
    );
    a.send_to(&mut ctx, b.id(), vec![0u8; 1], 0).unwrap();
    assert_eq!(ctx.next_due_at(), Some(u64::MAX));
}

#[test]
fn earlier_due_message_is_delivered_first() {
    // Two senders, 10 ms and 50 ms edges to the same sink, both sending at
    // time zero: the message due earlier comes out of the sink first.
    let mut ctx: SimContext<Vec<u8>> = SimContext::with_config(SimConfiguration::default());
    let slow = ctx.open().unwrap();
    let fast = ctx.open().unwrap();
    let sink = ctx.open().unwrap();
    ctx.set_edge_policy(Edge { from: slow.id(), to: sink.id() }, lossless(50));
    ctx.set_edge_policy(Edge { from: fast.id(), to: sink.id() }, lossless(10));

    slow.send_to(&mut ctx, sink.id(), vec![1], 0).unwrap();
    fast.send_to(&mut ctx, sink.id(), vec![2], 0).unwrap();

    ctx.advance(60 * MS);
    let (first, _) = sink.recv(&mut ctx).unwrap();
    let (second, _) = sink.recv(&mut ctx).unwrap();
    assert_eq!(first, fast.id());
    assert_eq!(second, slow.id());
    assert_eq!(sink.recv(&mut ctx), None);
}

#[test]
fn equal_due_times_keep_insertion_order() {
    // Same edge latency, same send instant: among equal due times the
    // earlier send is delivered first.
    let mut ctx: SimContext<Vec<u8>> = SimContext::with_config(SimConfiguration::default());
    let a = ctx.open().unwrap();
    let b = ctx.open().unwrap();
    let sink = ctx.open().unwrap();
    ctx.set_edge_policy(Edge { from: a.id(), to: sink.id() }, lossless(20));
    ctx.set_edge_policy(Edge { from: b.id(), to: sink.id() }, lossless(20));

    a.send_to(&mut ctx, sink.id(), vec![1], 0).unwrap();
    b.send_to(&mut ctx, sink.id(), vec![2], 0).unwrap();
    a.send_to(&mut ctx, sink.id(), vec![3], 0).unwrap();

    ctx.advance(20 * MS);
    assert_eq!(sink.recv(&mut ctx).unwrap(), (a.id(), vec![1]));
    assert_eq!(sink.recv(&mut ctx).unwrap(), (b.id(), vec![2]));
    assert_eq!(sink.recv(&mut ctx).unwrap(), (a.id(), vec![3]));
}

#[test]
fn shutdown_is_one_way_and_second_call_fails() {
    let mut ctx: SimContext<Vec<u8>> = SimContext::with_config(SimConfiguration::default());
    assert_eq!(ctx.state(), BusState::Running);
    assert_eq!(ctx.shutdown(0), Ok(()));
    assert_eq!(ctx.state(), BusState::Stopped);
    assert_eq!(ctx.shutdown(1), Err(ShutdownError::AlreadyShutdown));
    assert_eq!(ctx.state(), BusState::Stopped);
}

#[test]
fn shutdown_delivers_due_and_discards_pending() {
    // The documented drain policy: messages already due at the shutdown
    // instant are delivered, everything still pending is discarded.
    let mut ctx: SimContext<Vec<u8>> = SimContext::with_config(SimConfiguration::default());
    let a = ctx.open().unwrap();
    let b = ctx.open().unwrap();
    ctx.set_edge_policy(Edge { from: a.id(), to: b.id() }, lossless(10));
    a.send_to(&mut ctx, b.id(), vec![1], 0).unwrap();

    let c = ctx.open().unwrap();
    ctx.set_edge_policy(Edge { from: c.id(), to: b.id() }, lossless(100));
    c.send_to(&mut ctx, b.id(), vec![2], 0).unwrap();

    ctx.shutdown(50 * MS).unwrap();
    assert_eq!(b.recv(&mut ctx).unwrap(), (a.id(), vec![1]));
    assert_eq!(b.recv(&mut ctx), None);
}

#[test]
fn receivers_reach_end_of_stream_after_shutdown() {
    // After shutdown nothing is in flight and nothing can be added, so a
    // receiver draining its queue reaches end-of-stream instead of hanging.
    let mut ctx: SimContext<Vec<u8>> = SimContext::with_config(SimConfiguration::default());
    let a = ctx.open().unwrap();
    let b = ctx.open().unwrap();
    a.send_to(&mut ctx, b.id(), vec![7], 0).unwrap();
    ctx.shutdown(1).unwrap();

    assert_eq!(b.recv(&mut ctx).unwrap(), (a.id(), vec![7]));
    for _ in 0..16 {
        assert_eq!(b.recv(&mut ctx), None);
        assert_eq!(a.recv(&mut ctx), None);
    }
    assert_eq!(a.send_to(&mut ctx, b.id(), vec![8], 2), Err(SendError::BusClosed));
    assert!(matches!(ctx.open(), Err(OpenError::BusClosed)));
    ctx.advance(u64::MAX);
    assert_eq!(b.recv(&mut ctx), None);
}

#[test]
fn observed_drop_rate_converges_to_loss_probability() {
    // With loss probability 1/4 and a fixed seed, the observed drop rate
    // over many sends stays close to 1/4, and the run is reproducible.
    let delivered_counts: Vec<usize> = (0..2)
        .map(|_| {
            let mut config = SimConfiguration::default();
            config.seed = 12345;
            let mut ctx: SimContext<Vec<u8>> = SimContext::with_config(config);
            let a = ctx.open().unwrap();
            let b = ctx.open().unwrap();
            ctx.set_edge_policy(
                Edge { from: a.id(), to: b.id() },
                EdgePolicy {
                    latency: Latency { nanos: 0 },
                    packet_loss: PacketLoss { numerator: 1, denominator: 4 },
                },
            );
            let total: usize = 8000;
            for i in 0..total {
                a.send_to(&mut ctx, b.id(), vec![0u8; 1], i as u64).unwrap();
            }
            ctx.advance(u64::MAX / 2);
            let mut delivered: usize = 0;
            while b.recv(&mut ctx).is_some() {
                delivered += 1;
            }
            delivered
        })
        .collect();

    assert_eq!(delivered_counts[0], delivered_counts[1]);
    let total = 8000f64;
    let rate = (total - delivered_counts[0] as f64) / total;
    assert!((rate - 0.25).abs() < 0.04, "observed drop rate {rate}");
}

#[test]
fn zero_loss_delivers_every_message() {
    let mut ctx: SimContext<Vec<u8>> = SimContext::with_config(SimConfiguration::default());
    let a = ctx.open().unwrap();
    let b = ctx.open().unwrap();
    ctx.set_edge_policy(Edge { from: a.id(), to: b.id() }, lossless(0));
    for i in 0..500u64 {
        a.send_to(&mut ctx, b.id(), vec![0u8; 4], i).unwrap();
    }
    ctx.advance(1_000_000);
    let mut delivered = 0;
    while b.recv(&mut ctx).is_some() {
        delivered += 1;
    }
    assert_eq!(delivered, 500);
}

#[test]
fn two_taps_deliver_one_hundred_messages_each() {
    // Two taps, one message per 10 ms for one second, one sink: the sink
    // counts exactly 100 messages per tap.
    let mut ctx: SimContext<Vec<u8>> = SimContext::with_config(SimConfiguration::default());
    let sink = ctx.open().unwrap();
    let tap1 = ctx.open().unwrap();
    let tap2 = ctx.open().unwrap();
    ctx.set_edge_policy(Edge { from: tap1.id(), to: sink.id() }, lossless(60));
    ctx.set_edge_policy(Edge { from: tap2.id(), to: sink.id() }, lossless(60));

    for t in 0..100u64 {
        let now = t * 10 * MS;
        ctx.advance(now);
        tap1.send_to(&mut ctx, sink.id(), vec![1], now).unwrap();
        tap2.send_to(&mut ctx, sink.id(), vec![2], now).unwrap();
    }
    ctx.advance(2_000 * MS);

    let mut from_tap1 = 0;
    let mut from_tap2 = 0;
    while let Some((from, _)) = sink.recv(&mut ctx) {
        if from == tap1.id() {
            from_tap1 += 1;
        } else if from == tap2.id() {
            from_tap2 += 1;
        }
    }
    assert_eq!(from_tap1, 100);
    assert_eq!(from_tap2, 100);
}

#[test]
fn send_to_unknown_destination_is_dropped_in_transit() {
    let mut ctx: SimContext<Vec<u8>> = SimContext::with_config(SimConfiguration::default());
    let a = ctx.open().unwrap();
    let ghostly = netsim::SimId(999);
    assert_eq!(a.send_to(&mut ctx, ghostly, vec![1], 0), Ok(()));
    ctx.advance(1_000 * MS);
    assert_eq!(a.recv(&mut ctx), None);
}

#[test]
fn delivery_to_closed_socket_is_dropped() {
    let mut ctx: SimContext<Vec<u8>> = SimContext::with_config(SimConfiguration::default());
    let a = ctx.open().unwrap();
    let b = ctx.open().unwrap();
    ctx.set_edge_policy(Edge { from: a.id(), to: b.id() }, lossless(10));
    a.send_to(&mut ctx, b.id(), vec![1], 0).unwrap();
    ctx.close(b.id());
    ctx.advance(20 * MS);
    assert_eq!(b.recv(&mut ctx), None);
}

#[test]
fn open_hands_out_distinct_identifiers() {
    let mut ctx: SimContext<Vec<u8>> = SimContext::with_config(SimConfiguration::default());
    let a = ctx.open().unwrap();
    let b = ctx.open().unwrap();
    let c = ctx.open().unwrap();
    assert_ne!(a.id(), b.id());
    assert_ne!(a.id(), c.id());
    assert_ne!(b.id(), c.id());
}

#[test]
fn socket_handle_reports_its_identifier() {
    let sock = SimSocket::new(netsim::SimId(7));
    assert_eq!(sock.id(), netsim::SimId(7));
    assert_eq!(sock.id().value(), 7);
}

#[test]
fn bus_level_send_and_clock_accessors() {
    let mut config = SimConfiguration::default();
    config.idle_duration_nanos = 250_000;
    let mut ctx: SimContext<Vec<u8>> = SimContext::with_config(config);
    assert_eq!(ctx.idle_duration_nanos(), 250_000);
    assert_eq!(ctx.time_reached(), 0);

    let a = ctx.open().unwrap();
    let b = ctx.open().unwrap();
    ctx.set_edge_policy(Edge { from: a.id(), to: b.id() }, lossless(5));
    ctx.send(a.id(), b.id(), vec![1, 2], 0).unwrap();
    ctx.advance(5 * MS);
    assert_eq!(ctx.time_reached(), 5 * MS);
    assert_eq!(b.recv(&mut ctx).unwrap(), (a.id(), vec![1, 2]));
    assert_eq!(ctx.next_due_at(), None);
}

#[test]
fn default_configuration_values() {
    let config = SimConfiguration::default();
    assert_eq!(config.idle_duration_nanos, 500_000);
    assert_eq!(config.seed, 0);
    assert_eq!(config.default_node_policy.bandwidth_up, Bandwidth::Unbounded);
    assert_eq!(config.default_node_policy.bandwidth_down, Bandwidth::Unbounded);
    assert_eq!(config.default_edge_policy.latency, Latency { nanos: 0 });
    assert_eq!(config.default_edge_policy.packet_loss, PacketLoss::none());
}
