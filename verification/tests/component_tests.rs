use netsim::{
    Bandwidth, Edge, EdgePolicy, HasBytesSize, Latency, Msg, NodePolicy, PacketLoss, PolicyStore,
    SimId, SimRng, TimeOrdered,
};

fn envelope(due_at: u64, tag: u8) -> Msg<u8> {
    Msg { from: SimId(0), to: SimId(1), size_bytes: 1, created_at: 0, due_at, payload: tag }
}

#[test]
fn queue_pops_in_due_time_order() {
    let mut q: TimeOrdered<u8> = TimeOrdered::new();
    q.insert(envelope(30, 1));
    q.insert(envelope(10, 2));
    q.insert(envelope(20, 3));
    assert_eq!(q.len(), 3);
    assert_eq!(q.peek_next_due_at(), Some(10));

    let m = q.pop_due(100).unwrap();
    assert_eq!((m.due_at, m.payload), (10, 2));
    let m = q.pop_due(100).unwrap();
    assert_eq!((m.due_at, m.payload), (20, 3));
    let m = q.pop_due(100).unwrap();
    assert_eq!((m.due_at, m.payload), (30, 1));
    assert!(q.pop_due(100).is_none());
}

#[test]
fn queue_pop_due_respects_now() {
    let mut q: TimeOrdered<u8> = TimeOrdered::new();
    q.insert(envelope(50, 1));
    assert!(q.pop_due(49).is_none());
    assert_eq!(q.len(), 1);
    assert!(q.pop_due(50).is_some());
    assert_eq!(q.peek_next_due_at(), None);
}

#[test]
fn queue_keeps_insertion_order_among_equal_due_times() {
    let mut q: TimeOrdered<u8> = TimeOrdered::new();
    q.insert(envelope(10, 1));
    q.insert(envelope(10, 2));
    q.insert(envelope(5, 0));
    q.insert(envelope(10, 3));
    assert_eq!(q.pop_due(10).unwrap().payload, 0);
    assert_eq!(q.pop_due(10).unwrap().payload, 1);
    assert_eq!(q.pop_due(10).unwrap().payload, 2);
    assert_eq!(q.pop_due(10).unwrap().payload, 3);
}

#[test]
fn queue_clear_discards_everything() {
    let mut q: TimeOrdered<u8> = TimeOrdered::new();
    q.insert(envelope(1, 1));
    q.insert(envelope(2, 2));
    q.clear();
    assert_eq!(q.len(), 0);
    assert!(q.pop_due(u64::MAX).is_none());
}

#[test]
fn policy_store_falls_back_to_defaults() {
    let default_node =
        NodePolicy { bandwidth_up: Bandwidth::Unbounded, bandwidth_down: Bandwidth::Unbounded };
    let default_edge =
        EdgePolicy { latency: Latency { nanos: 42 }, packet_loss: PacketLoss::none() };
    let store = PolicyStore::new(default_node, default_edge);
    assert_eq!(store.effective_node_policy(SimId(3)), default_node);
    assert_eq!(store.effective_edge_policy(SimId(1), SimId(2)), default_edge);
}

#[test]
fn policy_store_replaces_and_keeps_others() {
    let default_node =
        NodePolicy { bandwidth_up: Bandwidth::Unbounded, bandwidth_down: Bandwidth::Unbounded };
    let default_edge =
        EdgePolicy { latency: Latency { nanos: 0 }, packet_loss: PacketLoss::none() };
    let mut store = PolicyStore::new(default_node, default_edge);

    let throttled = NodePolicy {
        bandwidth_up: Bandwidth::BitsPerSec(100),
        bandwidth_down: Bandwidth::BitsPerSec(200),
    };
    store.set_node_policy(SimId(1), throttled);
    assert_eq!(store.effective_node_policy(SimId(1)), throttled);
    assert_eq!(store.effective_node_policy(SimId(2)), default_node);

    let replaced = NodePolicy {
        bandwidth_up: Bandwidth::BitsPerSec(999),
        bandwidth_down: Bandwidth::Unbounded,
    };
    store.set_node_policy(SimId(1), replaced);
    assert_eq!(store.effective_node_policy(SimId(1)), replaced);
}

#[test]
fn edge_directions_are_independent() {
    let default_node =
        NodePolicy { bandwidth_up: Bandwidth::Unbounded, bandwidth_down: Bandwidth::Unbounded };
    let default_edge =
        EdgePolicy { latency: Latency { nanos: 0 }, packet_loss: PacketLoss::none() };
    let mut store = PolicyStore::new(default_node, default_edge);

    let forward = EdgePolicy { latency: Latency { nanos: 77 }, packet_loss: PacketLoss::none() };
    store.set_edge_policy(Edge { from: SimId(1), to: SimId(2) }, forward);
    assert_eq!(store.effective_edge_policy(SimId(1), SimId(2)), forward);
    assert_eq!(store.effective_edge_policy(SimId(2), SimId(1)), default_edge);
}

#[test]
fn rng_is_deterministic_and_bounded() {
    let mut r1 = SimRng::new(42);
    let mut r2 = SimRng::new(42);
    for _ in 0..100 {
        let a = r1.sample(10);
        let b = r2.sample(10);
        assert_eq!(a, b);
        assert!(a < 10);
    }
    let mut r3 = SimRng::new(43);
    let seq1: Vec<u64> = (0..8).map(|_| SimRng::new(42).sample(1_000_000)).collect();
    let seq3: Vec<u64> = (0..8).map(|_| r3.sample(1_000_000)).collect();
    assert_ne!(seq1, seq3);
}

#[test]
fn vec_payload_reports_its_length() {
    let payload: Vec<u8> = vec![1, 2, 3, 4, 5];
    assert_eq!(payload.bytes_size(), 5);
    let empty: Vec<u8> = Vec::new();
    assert_eq!(empty.bytes_size(), 0);
}

#[test]
fn envelope_accessors() {
    let m = Msg {
        from: SimId(4),
        to: SimId(5),
        size_bytes: 2,
        created_at: 10,
        due_at: 30,
        payload: vec![9u8, 9],
    };
    assert_eq!(m.from(), SimId(4));
    assert_eq!(m.into_content(), vec![9u8, 9]);
    let built = Msg::new(SimId(1), SimId(2), 3, 4, 5, 6u8);
    assert_eq!((built.from, built.to), (SimId(1), SimId(2)));
    assert_eq!((built.size_bytes, built.created_at, built.due_at), (3, 4, 5));
    assert_eq!(built.payload, 6);
}
