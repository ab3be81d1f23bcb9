use gossip_glomers::broadcast::{BroadcastPayload, EfficientBroadcastNode, TopologyEntry};
use gossip_glomers::fault_tolerant::FaultTolerantBroadcastNode;
use gossip_glomers::protocol::{InitPayload, Message};
use gossip_glomers::single_node::SingleNodeBroadcastNode;

fn init_message(node: &str, roster: Vec<&str>) -> Message<BroadcastPayload> {
    Message::new(
        "c0".to_string(),
        node.to_string(),
        BroadcastPayload::Init(InitPayload {
            node_id: node.to_string(),
            node_ids: roster.into_iter().map(|s| s.to_string()).collect(),
        }),
    )
}

fn topology_message(node: &str, neighbours: Vec<&str>) -> Message<BroadcastPayload> {
    Message::new(
        "c0".to_string(),
        node.to_string(),
        BroadcastPayload::Topology {
            topology: vec![TopologyEntry {
                node: node.to_string(),
                neighbours: neighbours.into_iter().map(|s| s.to_string()).collect(),
            }],
        },
    )
}

fn configured_node() -> EfficientBroadcastNode {
    let mut node = EfficientBroadcastNode::new();
    let reply = node.handle(init_message("n1", vec!["n1", "n2", "n3"])).unwrap();
    assert!(matches!(reply.body.payload, BroadcastPayload::InitOk));
    let reply = node.handle(topology_message("n1", vec!["n2", "n3"])).unwrap();
    assert!(matches!(reply.body.payload, BroadcastPayload::TopologyOk));
    node
}

fn sorted(mut v: Vec<usize>) -> Vec<usize> {
    v.sort();
    v
}

fn unknown_of(node: &EfficientBroadcastNode, name: &str) -> Vec<usize> {
    for n in node.neighbours.iter() {
        if n.name == name {
            return sorted(n.unknown.clone());
        }
    }
    panic!("no such neighbour");
}

#[test]
fn broadcast_then_gossip_then_partial_ack() {
    let mut node = configured_node();

    // A client broadcast is acknowledged at once and marked for both
    // neighbours.
    let mut bcast = Message::new(
        "c1".to_string(),
        "n1".to_string(),
        BroadcastPayload::Broadcast { message: 7 },
    );
    bcast.body.id = Some(3);
    let reply = node.handle(bcast).unwrap();
    assert!(matches!(reply.body.payload, BroadcastPayload::BroadcastOk));
    assert_eq!(reply.dst, "c1");
    assert_eq!(reply.body.in_reply_to, Some(3));
    assert_eq!(unknown_of(&node, "n2"), vec![7]);
    assert_eq!(unknown_of(&node, "n3"), vec![7]);

    // The next tick gossips {7} to both neighbours, naming both recipients.
    let out = node.handle_gossip();
    assert_eq!(out.len(), 2);
    let mut targets: Vec<String> = out.iter().map(|m| m.dst.clone()).collect();
    targets.sort();
    assert_eq!(targets, vec!["n2".to_string(), "n3".to_string()]);
    for envelope in out.iter() {
        assert_eq!(envelope.src, "n1");
        match &envelope.body.payload {
            BroadcastPayload::Gossip { recipients, messages } => {
                let mut rs = recipients.clone();
                rs.sort();
                assert_eq!(rs, vec!["n2".to_string(), "n3".to_string()]);
                assert_eq!(messages, &vec![7]);
            }
            other => panic!("expected gossip, got {:?}", std::mem::discriminant(other)),
        }
    }

    // n2 acknowledges: its unknown-set is cleared, n3's is not.
    let ack = Message::new(
        "n2".to_string(),
        "n1".to_string(),
        BroadcastPayload::GossipOk { messages: vec![7] },
    );
    assert!(node.handle(ack).is_none());
    assert_eq!(unknown_of(&node, "n2"), Vec::<usize>::new());
    assert_eq!(unknown_of(&node, "n3"), vec![7]);

    // The tick keeps resending what remains unacknowledged, and only that:
    // n2, owed nothing, gets no envelope; n3 gets its pending value again.
    let out = node.handle_gossip();
    assert_eq!(out.len(), 1);
    assert_eq!(out[0].dst, "n3");
    match &out[0].body.payload {
        BroadcastPayload::Gossip { recipients: _, messages } => assert_eq!(messages, &vec![7]),
        _ => panic!("expected gossip"),
    }

    // After n3 acknowledges too there is nothing left to say.
    let ack = Message::new(
        "n3".to_string(),
        "n1".to_string(),
        BroadcastPayload::GossipOk { messages: vec![7] },
    );
    assert!(node.handle(ack).is_none());
    assert!(node.handle_gossip().is_empty());
}

#[test]
fn duplicate_gossip_is_idempotent_and_acknowledged_twice() {
    let mut node = configured_node();
    let gossip = |vals: Vec<usize>| {
        Message::new(
            "n2".to_string(),
            "n1".to_string(),
            BroadcastPayload::Gossip { recipients: vec!["n1".to_string()], messages: vals },
        )
    };

    let first = node.handle(gossip(vec![5])).unwrap();
    match &first.body.payload {
        BroadcastPayload::GossipOk { messages } => assert_eq!(messages, &vec![5]),
        _ => panic!("expected gossip_ok"),
    }
    let after_once = sorted(node.messages.clone());

    let second = node.handle(gossip(vec![5])).unwrap();
    match &second.body.payload {
        BroadcastPayload::GossipOk { messages } => assert_eq!(messages, &vec![5]),
        _ => panic!("expected gossip_ok"),
    }
    assert_eq!(sorted(node.messages.clone()), after_once);
    assert_eq!(after_once, vec![5]);
}

#[test]
fn empty_gossip_is_ignored_without_reply() {
    let mut node = configured_node();
    let gossip = Message::new(
        "n2".to_string(),
        "n1".to_string(),
        BroadcastPayload::Gossip { recipients: vec![], messages: vec![] },
    );
    assert!(node.handle(gossip).is_none());
    assert!(node.messages.is_empty());
}

#[test]
fn read_returns_everything_learned_in_any_order() {
    let mut node = configured_node();
    // 7 arrives by client broadcast, 1 and 3 by gossip, in scrambled order.
    let g1 = Message::new(
        "n3".to_string(),
        "n1".to_string(),
        BroadcastPayload::Gossip { recipients: vec![], messages: vec![3, 1] },
    );
    node.handle(g1);
    let b = Message::new(
        "c1".to_string(),
        "n1".to_string(),
        BroadcastPayload::Broadcast { message: 7 },
    );
    node.handle(b);
    let g2 = Message::new(
        "n2".to_string(),
        "n1".to_string(),
        BroadcastPayload::Gossip { recipients: vec![], messages: vec![1, 7] },
    );
    node.handle(g2);

    let read = Message::new("c2".to_string(), "n1".to_string(), BroadcastPayload::Read);
    let reply = node.handle(read).unwrap();
    match reply.body.payload {
        BroadcastPayload::ReadOk { messages } => assert_eq!(sorted(messages), vec![1, 3, 7]),
        _ => panic!("expected read_ok"),
    }
}

#[test]
fn gossip_recipients_bound_the_rebroadcast() {
    let mut node = configured_node();
    // n2 gossips {9} and says it also addressed n3: n1 must not take on an
    // obligation towards n3 or back towards n2.
    let gossip = Message::new(
        "n2".to_string(),
        "n1".to_string(),
        BroadcastPayload::Gossip {
            recipients: vec!["n1".to_string(), "n3".to_string()],
            messages: vec![9],
        },
    );
    node.handle(gossip).unwrap();
    assert_eq!(unknown_of(&node, "n2"), Vec::<usize>::new());
    assert_eq!(unknown_of(&node, "n3"), Vec::<usize>::new());
    assert_eq!(sorted(node.messages.clone()), vec![9]);
}

#[test]
fn value_crosses_a_chain_despite_a_dropped_envelope() {
    // n1 — n2 — n3, each knowing only its own neighbours.
    let mut n1 = EfficientBroadcastNode::new();
    n1.handle(init_message("n1", vec!["n1", "n2", "n3"]));
    n1.handle(topology_message("n1", vec!["n2"]));
    let mut n2 = EfficientBroadcastNode::new();
    n2.handle(init_message("n2", vec!["n1", "n2", "n3"]));
    n2.handle(topology_message("n2", vec!["n1", "n3"]));
    let mut n3 = EfficientBroadcastNode::new();
    n3.handle(init_message("n3", vec!["n1", "n2", "n3"]));
    n3.handle(topology_message("n3", vec!["n2"]));

    // A client broadcasts 42 at n1.
    n1.handle(Message::new(
        "c1".to_string(),
        "n1".to_string(),
        BroadcastPayload::Broadcast { message: 42 },
    ));

    // The first tick's envelope is lost in transit: nothing changes
    // anywhere, and the next tick offers the very same gossip again.
    let dropped = n1.handle_gossip();
    assert_eq!(dropped.len(), 1);
    let retry = n1.handle_gossip();
    assert_eq!(retry.len(), 1);

    // The retry reaches n2, which acknowledges and takes on the obligation
    // towards n3 (n3 was not among n1's recipients).
    let mut deliver = |node: &mut EfficientBroadcastNode,
                       envelopes: Vec<Message<BroadcastPayload>>| {
        for envelope in envelopes {
            if envelope.dst == node_name(node) {
                node.handle(envelope);
            }
        }
    };
    fn node_name(node: &EfficientBroadcastNode) -> String {
        node.init.as_ref().unwrap().node_id.clone()
    }
    deliver(&mut n2, retry);
    assert!(n2.messages.contains(&42));

    // n2's own tick carries the value on to n3.
    let relayed = n2.handle_gossip();
    deliver(&mut n3, relayed);
    assert!(n3.messages.contains(&42));

    // A read anywhere now shows the value.
    let read = Message::new("c2".to_string(), "n3".to_string(), BroadcastPayload::Read);
    match n3.handle(read).unwrap().body.payload {
        BroadcastPayload::ReadOk { messages } => assert!(messages.contains(&42)),
        _ => panic!("expected read_ok"),
    }
}

#[test]
fn unknown_payload_is_a_no_op() {
    let mut node = configured_node();
    let stray = Message::new("c9".to_string(), "n1".to_string(), BroadcastPayload::Unknown);
    assert!(node.handle(stray).is_none());
}

#[test]
fn topology_without_an_entry_fails_closed() {
    let mut node = EfficientBroadcastNode::new();
    node.handle(init_message("n1", vec!["n1", "n2"]));
    let reply = node.handle(topology_message("n9", vec!["n2"])).unwrap();
    assert!(matches!(reply.body.payload, BroadcastPayload::TopologyOk));
    assert!(node.neighbours.is_empty());
}

#[test]
fn fault_tolerant_node_resends_everything() {
    let mut node = FaultTolerantBroadcastNode::new();
    node.handle(init_message("n1", vec!["n1", "n2"]));
    node.handle(topology_message("n1", vec!["n2"]));
    node.handle(Message::new(
        "c1".to_string(),
        "n1".to_string(),
        BroadcastPayload::Broadcast { message: 4 },
    ));
    // Gossip is merged and acknowledged with exactly the carried values.
    let gossip = Message::new(
        "n2".to_string(),
        "n1".to_string(),
        BroadcastPayload::Gossip { recipients: vec![], messages: vec![6] },
    );
    let ack = node.handle(gossip).unwrap();
    assert_eq!(ack.dst, "n2");
    match &ack.body.payload {
        BroadcastPayload::GossipOk { messages } => assert_eq!(messages, &vec![6]),
        _ => panic!("expected gossip_ok"),
    }

    // Empty gossip earns no reply.
    let empty = Message::new(
        "n2".to_string(),
        "n1".to_string(),
        BroadcastPayload::Gossip { recipients: vec![], messages: vec![] },
    );
    assert!(node.handle(empty).is_none());

    let out = node.handle_gossip();
    assert_eq!(out.len(), 1);
    assert_eq!(out[0].dst, "n2");
    match &out[0].body.payload {
        BroadcastPayload::Gossip { recipients, messages } => {
            assert!(recipients.is_empty());
            assert_eq!(sorted(messages.clone()), vec![4, 6]);
        }
        _ => panic!("expected gossip"),
    }

    let read = Message::new("c2".to_string(), "n1".to_string(), BroadcastPayload::Read);
    let reply = node.handle(read).unwrap();
    match reply.body.payload {
        BroadcastPayload::ReadOk { messages } => assert_eq!(sorted(messages), vec![4, 6]),
        _ => panic!("expected read_ok"),
    }
}

#[test]
fn single_node_variant_keeps_a_set() {
    let mut node = SingleNodeBroadcastNode::new();
    node.handle(init_message("n1", vec!["n1"]));
    for v in [2usize, 2, 5] {
        let reply = node
            .handle(Message::new(
                "c1".to_string(),
                "n1".to_string(),
                BroadcastPayload::Broadcast { message: v },
            ))
            .unwrap();
        assert!(matches!(reply.body.payload, BroadcastPayload::BroadcastOk));
    }
    let reply = node
        .handle(Message::new("c1".to_string(), "n1".to_string(), BroadcastPayload::Read))
        .unwrap();
    match reply.body.payload {
        BroadcastPayload::ReadOk { messages } => assert_eq!(sorted(messages), vec![2, 5]),
        _ => panic!("expected read_ok"),
    }
}
