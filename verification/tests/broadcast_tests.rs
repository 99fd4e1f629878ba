use rust_engan::broadcast::{BroadcastNode, InjectedPayload, Payload};
use rust_engan::protocol::{Body, Event, Message, NodeError};

fn s(x: &str) -> String {
    x.to_string()
}

fn node_with_peers(me: &str, peers: &[&str]) -> BroadcastNode {
    BroadcastNode::from_init(s(me), peers.iter().map(|p| s(p)).collect())
}

fn envelope(src: &str, dst: &str, id: Option<usize>, payload: Payload) -> Event<Payload, InjectedPayload> {
    Event::Message(Message {
        src: s(src),
        dst: s(dst),
        body: Body { id, in_reply_to: None, payload },
    })
}

fn read_values(node: &mut BroadcastNode) -> Vec<usize> {
    let out = node
        .step(envelope("c1", "n1", Some(9), Payload::Read))
        .expect("read must succeed");
    assert_eq!(out.len(), 1);
    match &out[0].body.payload {
        Payload::ReadOk { messages } => messages.clone(),
        _ => panic!("expected a read_ok reply"),
    }
}

#[test]
fn from_init_starts_empty_and_isolated() {
    let node = node_with_peers("n1", &["n1", "n2", "n3"]);
    assert_eq!(node.node, s("n1"));
    assert_eq!(node.id, 1);
    assert!(!node.messages.contains(0));
    assert!(node.neighborhood.is_empty());
    assert_eq!(node.peers.len(), 3);
    assert_eq!(node.known.len(), 3);
}

#[test]
fn broadcast_replies_and_stores() {
    let mut node = node_with_peers("n1", &["n1", "n2"]);
    let out = node
        .step(envelope("c1", "n1", Some(7), Payload::Broadcast { message: 42 }))
        .expect("broadcast must succeed");
    assert_eq!(out.len(), 1);
    assert_eq!(out[0].src, s("n1"));
    assert_eq!(out[0].dst, s("c1"));
    assert_eq!(out[0].body.id, Some(1));
    assert_eq!(out[0].body.in_reply_to, Some(7));
    assert!(matches!(out[0].body.payload, Payload::BroadcastOk));
    assert!(node.messages.contains(42));
    assert_eq!(node.id, 2);
}

#[test]
fn read_reflects_acknowledged_broadcast() {
    let mut node = node_with_peers("n1", &["n1", "n2"]);
    node.step(envelope("c1", "n1", Some(1), Payload::Broadcast { message: 42 }))
        .expect("broadcast must succeed");
    let values = read_values(&mut node);
    assert_eq!(values, vec![42]);
}

#[test]
fn broadcast_twice_is_idempotent() {
    let mut node = node_with_peers("n1", &["n1", "n2"]);
    node.step(envelope("c1", "n1", Some(1), Payload::Broadcast { message: 5 }))
        .expect("broadcast must succeed");
    node.step(envelope("c1", "n1", Some(2), Payload::Broadcast { message: 5 }))
        .expect("broadcast must succeed");
    let values = read_values(&mut node);
    assert_eq!(values, vec![5]);
}

#[test]
fn gossip_twice_is_idempotent() {
    let mut node = node_with_peers("n1", &["n1", "n2"]);
    let seen = vec![3, 4];
    node.step(envelope("n2", "n1", None, Payload::Gossip { seen: seen.clone() }))
        .expect("gossip from a named peer must succeed");
    node.step(envelope("n2", "n1", None, Payload::Gossip { seen }))
        .expect("gossip from a named peer must succeed");
    let mut values = read_values(&mut node);
    values.sort();
    assert_eq!(values, vec![3, 4]);
}

#[test]
fn gossip_from_unknown_peer_is_an_error() {
    let mut node = node_with_peers("n1", &["n1", "n2"]);
    let r = node.step(envelope("nx", "n1", None, Payload::Gossip { seen: vec![1] }));
    assert!(matches!(r, Err(NodeError::UnknownPeer)));
    let values = read_values(&mut node);
    assert!(values.is_empty());
}

#[test]
fn topology_sets_neighborhood() {
    let mut node = node_with_peers("n1", &["n1", "n2", "n3"]);
    let topology = vec![
        (s("n1"), vec![s("n2"), s("n3")]),
        (s("n2"), vec![s("n1")]),
    ];
    let out = node
        .step(envelope("c1", "n1", Some(4), Payload::Topology { topology }))
        .expect("topology with an entry for this node must succeed");
    assert_eq!(out.len(), 1);
    assert!(matches!(out[0].body.payload, Payload::TopologyOk));
    assert_eq!(node.neighborhood, vec![s("n2"), s("n3")]);
}

#[test]
fn topology_without_own_entry_is_an_error() {
    let mut node = node_with_peers("n1", &["n1", "n2"]);
    let topology = vec![(s("n2"), vec![s("n1")])];
    let r = node.step(envelope("c1", "n1", Some(4), Payload::Topology { topology }));
    assert!(matches!(r, Err(NodeError::MissingTopologyEntry)));
    assert!(node.neighborhood.is_empty());
}

#[test]
fn tick_without_topology_sends_nothing() {
    let mut node = node_with_peers("n1", &["n1", "n2"]);
    let out = node
        .step(Event::Injected(InjectedPayload::Gossip))
        .expect("an isolated tick must succeed");
    assert!(out.is_empty());
}

#[test]
fn eof_is_ignored() {
    let mut node = node_with_peers("n1", &["n1", "n2"]);
    let out = node.step(Event::Eof).expect("end of input is not an error");
    assert!(out.is_empty());
    assert_eq!(node.id, 1);
}

#[test]
fn unsolicited_replies_are_ignored() {
    let mut node = node_with_peers("n1", &["n1", "n2"]);
    let out = node
        .step(envelope("n2", "n1", Some(3), Payload::BroadcastOk))
        .expect("a stray broadcast_ok is ignored");
    assert!(out.is_empty());
    let out = node
        .step(envelope("n2", "n1", Some(4), Payload::TopologyOk))
        .expect("a stray topology_ok is ignored");
    assert!(out.is_empty());
    let out = node
        .step(envelope("n2", "n1", Some(5), Payload::ReadOk { messages: vec![9] }))
        .expect("a stray read_ok is ignored");
    assert!(out.is_empty());
    let values = read_values(&mut node);
    assert!(values.is_empty());
}

#[test]
fn tick_resends_everything_not_known_to_neighbor() {
    let mut node = node_with_peers("n1", &["n1", "n2"]);
    let topology = vec![(s("n1"), vec![s("n2")])];
    node.step(envelope("c1", "n1", Some(1), Payload::Topology { topology }))
        .expect("topology must succeed");
    for m in [10, 11, 12] {
        node.step(envelope("c1", "n1", Some(2), Payload::Broadcast { message: m }))
            .expect("broadcast must succeed");
    }
    let out = node
        .step(Event::Injected(InjectedPayload::Gossip))
        .expect("tick must succeed");
    assert_eq!(out.len(), 1);
    assert_eq!(out[0].src, s("n1"));
    assert_eq!(out[0].dst, s("n2"));
    assert_eq!(out[0].body.id, None);
    match &out[0].body.payload {
        Payload::Gossip { seen } => {
            let mut seen = seen.clone();
            seen.sort();
            assert_eq!(seen, vec![10, 11, 12]);
        }
        _ => panic!("expected a gossip payload"),
    }
}

#[test]
fn tick_skips_what_the_neighbor_proved_it_knows() {
    let mut node = node_with_peers("n1", &["n1", "n2"]);
    let topology = vec![(s("n1"), vec![s("n2")])];
    node.step(envelope("c1", "n1", Some(1), Payload::Topology { topology }))
        .expect("topology must succeed");
    node.step(envelope("c1", "n1", Some(2), Payload::Broadcast { message: 1 }))
        .expect("broadcast must succeed");
    node.step(envelope("n2", "n1", None, Payload::Gossip { seen: vec![1, 2] }))
        .expect("gossip must succeed");
    let out = node
        .step(Event::Injected(InjectedPayload::Gossip))
        .expect("tick must succeed");
    assert_eq!(out.len(), 1);
    match &out[0].body.payload {
        Payload::Gossip { seen } => assert!(seen.is_empty()),
        _ => panic!("expected a gossip payload"),
    }
}

#[test]
fn tick_with_large_backlog_stays_inside_the_broadcast_set() {
    let mut node = node_with_peers("n1", &["n1", "n2"]);
    let topology = vec![(s("n1"), vec![s("n2")])];
    node.step(envelope("c1", "n1", Some(1), Payload::Topology { topology }))
        .expect("topology must succeed");
    // Five values the neighbor demonstrated, twenty it is still due.
    node.step(envelope("n2", "n1", None, Payload::Gossip { seen: (100..105).collect() }))
        .expect("gossip must succeed");
    for m in 0..20usize {
        node.step(envelope("c1", "n1", Some(2), Payload::Broadcast { message: m }))
            .expect("broadcast must succeed");
    }
    let out = node
        .step(Event::Injected(InjectedPayload::Gossip))
        .expect("tick must succeed");
    match &out[0].body.payload {
        Payload::Gossip { seen } => {
            for m in 0..20usize {
                assert!(seen.contains(&m), "a due value must always be resent");
            }
            for v in seen {
                assert!((0..20usize).contains(v) || (100..105usize).contains(v));
            }
        }
        _ => panic!("expected a gossip payload"),
    }
}

#[test]
fn gossip_to_untracked_neighbor_is_an_error() {
    let mut node = node_with_peers("n1", &["n1", "n2"]);
    let topology = vec![(s("n1"), vec![s("nx")])];
    node.step(envelope("c1", "n1", Some(1), Payload::Topology { topology }))
        .expect("topology itself is accepted");
    let r = node.step(Event::Injected(InjectedPayload::Gossip));
    assert!(matches!(r, Err(NodeError::UnknownPeer)));
}

#[test]
fn sets_only_grow_over_a_mixed_run() {
    let mut node = node_with_peers("n1", &["n1", "n2"]);
    node.step(envelope("c1", "n1", Some(1), Payload::Broadcast { message: 1 }))
        .expect("broadcast must succeed");
    node.step(envelope("n2", "n1", None, Payload::Gossip { seen: vec![2] }))
        .expect("gossip must succeed");
    node.step(envelope("c1", "n1", Some(2), Payload::Broadcast { message: 3 }))
        .expect("broadcast must succeed");
    node.step(envelope("n2", "n1", None, Payload::Gossip { seen: vec![4] }))
        .expect("gossip must succeed");
    for m in [1, 2, 3, 4] {
        assert!(node.messages.contains(m));
    }
}

/// The line-topology scenario: A–B–C, a broadcast injected at A
/// reaches B after one tick-and-delivery and C after two; a read at C
/// then reports it.
#[test]
fn line_topology_delivers_in_two_ticks() {
    let mut a = node_with_peers("a", &["a", "b", "c"]);
    let mut b = node_with_peers("b", &["a", "b", "c"]);
    let mut c = node_with_peers("c", &["a", "b", "c"]);
    a.step(envelope("c1", "a", Some(1), Payload::Topology {
        topology: vec![(s("a"), vec![s("b")])],
    }))
    .expect("topology at a");
    b.step(envelope("c1", "b", Some(1), Payload::Topology {
        topology: vec![(s("b"), vec![s("a"), s("c")])],
    }))
    .expect("topology at b");
    c.step(envelope("c1", "c", Some(1), Payload::Topology {
        topology: vec![(s("c"), vec![s("b")])],
    }))
    .expect("topology at c");

    a.step(envelope("c1", "a", Some(2), Payload::Broadcast { message: 42 }))
        .expect("broadcast at a");

    // Tick 1: a gossips to b; deliver.
    let out = a.step(Event::Injected(InjectedPayload::Gossip)).expect("tick at a");
    assert_eq!(out.len(), 1);
    assert_eq!(out[0].dst, s("b"));
    match &out[0].body.payload {
        Payload::Gossip { seen } => {
            assert_eq!(seen.clone(), vec![42]);
            b.step(envelope("a", "b", None, Payload::Gossip { seen: seen.clone() }))
                .expect("delivery to b");
        }
        _ => panic!("expected a gossip payload"),
    }
    assert!(b.messages.contains(42));

    // Tick 2: b gossips to a and c; deliver to c.
    let out = b.step(Event::Injected(InjectedPayload::Gossip)).expect("tick at b");
    assert_eq!(out.len(), 2);
    assert_eq!(out[0].dst, s("a"));
    match &out[0].body.payload {
        // b saw 42 arrive from a, so it owes a nothing back.
        Payload::Gossip { seen } => assert!(seen.is_empty()),
        _ => panic!("expected a gossip payload"),
    }
    assert_eq!(out[1].dst, s("c"));
    match &out[1].body.payload {
        Payload::Gossip { seen } => {
            assert_eq!(seen.clone(), vec![42]);
            c.step(envelope("b", "c", None, Payload::Gossip { seen: seen.clone() }))
                .expect("delivery to c");
        }
        _ => panic!("expected a gossip payload"),
    }
    assert!(c.messages.contains(42));

    let values = read_values(&mut c);
    assert_eq!(values, vec![42]);
}
