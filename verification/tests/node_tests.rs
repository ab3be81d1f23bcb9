use gossip_glomers::counter::{CounterPayload, GrowOnlyCounterNode};
use gossip_glomers::decimal::{counter_string, parse_counter};
use gossip_glomers::echo::{EchoNode, EchoPayload};
use gossip_glomers::kafka::{KafkaPayload, SingleNodeKafkaNode};
use gossip_glomers::protocol::{InitPayload, Message};
use gossip_glomers::unique::{UniqueIdNode, UniqueIdPayload};

#[test]
fn echo_answers_with_the_same_text() {
    let node = EchoNode;
    let mut msg = Message::new(
        "c1".to_string(),
        "n1".to_string(),
        EchoPayload::Echo { echo: "hello there".to_string() },
    );
    msg.body.id = Some(12);
    let reply = node.handle(msg).unwrap();
    assert_eq!(reply.src, "n1");
    assert_eq!(reply.dst, "c1");
    assert_eq!(reply.body.in_reply_to, Some(12));
    match reply.body.payload {
        EchoPayload::EchoOk { echo } => assert_eq!(echo, "hello there"),
        _ => panic!("expected echo_ok"),
    }
}

#[test]
fn generated_ids_have_ulid_shape_and_differ() {
    let node = UniqueIdNode;
    let gen = || {
        let msg = Message::new("c1".to_string(), "n1".to_string(), UniqueIdPayload::Generate);
        match node.handle(msg).unwrap().body.payload {
            UniqueIdPayload::GenerateOk { id } => id,
            _ => panic!("expected generate_ok"),
        }
    };
    let a = gen();
    let b = gen();
    assert_eq!(a.chars().count(), 26);
    assert_eq!(b.chars().count(), 26);
    assert_ne!(a, b);
}

#[test]
fn decimal_renders_exact_values() {
    assert_eq!(counter_string(0), "0");
    assert_eq!(counter_string(7), "7");
    assert_eq!(counter_string(12345), "12345");
    assert_eq!(counter_string(1000), "1000");
}

#[test]
fn decimal_parses_exactly_the_digit_strings() {
    assert_eq!(parse_counter("12345"), Some(12345));
    assert_eq!(parse_counter("0"), Some(0));
    assert_eq!(parse_counter(""), None);
    assert_eq!(parse_counter("12a"), None);
    assert_eq!(parse_counter("+5"), None);
    assert_eq!(parse_counter(" 5"), None);
    assert_eq!(parse_counter("999999999999999999999999999999"), None);
}

#[test]
fn counter_accumulates_and_reads_the_total() {
    let mut node = GrowOnlyCounterNode::new();
    let init = Message::new(
        "c0".to_string(),
        "n1".to_string(),
        CounterPayload::Init(InitPayload {
            node_id: "n1".to_string(),
            node_ids: vec!["n1".to_string(), "n2".to_string(), "n3".to_string()],
        }),
    );
    assert!(matches!(node.handle(init).unwrap().body.payload, CounterPayload::InitOk));

    let add = |node: &mut GrowOnlyCounterNode, delta: usize| {
        let msg =
            Message::new("c1".to_string(), "n1".to_string(), CounterPayload::Add { delta });
        assert!(matches!(node.handle(msg).unwrap().body.payload, CounterPayload::AddOk));
    };
    add(&mut node, 3);
    add(&mut node, 4);

    // The fetch plan publishes this node's share and reads the two peers.
    let (key, value, peers) = node.fetch_plan().unwrap();
    assert_eq!(key, "n1");
    assert_eq!(value, "7");
    assert_eq!(peers, vec!["n2".to_string(), "n3".to_string()]);

    // The peers answered 10 and something unparsable: only 10 counts.
    node.apply_fetched(&vec!["10".to_string(), "nope".to_string()]);

    let read = Message::new("c1".to_string(), "n1".to_string(), CounterPayload::Read);
    match node.handle(read).unwrap().body.payload {
        CounterPayload::ReadOk { value } => assert_eq!(value, 17),
        _ => panic!("expected read_ok"),
    }
}

#[test]
fn counter_before_init_has_no_plan() {
    let node = GrowOnlyCounterNode::new();
    assert!(node.fetch_plan().is_none());
}

#[test]
fn kafka_send_appends_at_increasing_offsets() {
    let mut node = SingleNodeKafkaNode::new();
    let send = |node: &mut SingleNodeKafkaNode, key: &str, msg: usize| {
        let m = Message::new(
            "c1".to_string(),
            "n1".to_string(),
            KafkaPayload::Send { key: key.to_string(), msg },
        );
        match node.handle(m).unwrap().body.payload {
            KafkaPayload::SendOk { offset } => offset,
            _ => panic!("expected send_ok"),
        }
    };
    assert_eq!(send(&mut node, "k1", 100), 1);
    assert_eq!(send(&mut node, "k1", 200), 2);
    assert_eq!(send(&mut node, "k2", 300), 1);
    assert_eq!(send(&mut node, "k1", 400), 3);
}

#[test]
fn kafka_poll_returns_messages_from_the_offset_on() {
    let mut node = SingleNodeKafkaNode::new();
    for (key, msg) in [("k1", 10), ("k1", 20), ("k1", 30), ("k2", 40)] {
        let m = Message::new(
            "c1".to_string(),
            "n1".to_string(),
            KafkaPayload::Send { key: key.to_string(), msg },
        );
        node.handle(m).unwrap();
    }
    let poll = Message::new(
        "c1".to_string(),
        "n1".to_string(),
        KafkaPayload::Poll {
            offsets: vec![("k1".to_string(), 2), ("k2".to_string(), 1), ("k9".to_string(), 1)],
        },
    );
    match node.handle(poll).unwrap().body.payload {
        KafkaPayload::PollOk { msgs } => {
            assert_eq!(msgs.len(), 3);
            assert_eq!(msgs[0].0, "k1");
            assert_eq!(msgs[0].1, vec![(2, 20), (3, 30)]);
            assert_eq!(msgs[1].0, "k2");
            assert_eq!(msgs[1].1, vec![(1, 40)]);
            assert_eq!(msgs[2].0, "k9");
            assert!(msgs[2].1.is_empty());
        }
        _ => panic!("expected poll_ok"),
    }
}

#[test]
fn kafka_commit_and_list_round_trip() {
    let mut node = SingleNodeKafkaNode::new();
    for msg in [10usize, 20] {
        let m = Message::new(
            "c1".to_string(),
            "n1".to_string(),
            KafkaPayload::Send { key: "k1".to_string(), msg },
        );
        node.handle(m).unwrap();
    }
    let commit = Message::new(
        "c1".to_string(),
        "n1".to_string(),
        KafkaPayload::CommitOffsets {
            offsets: vec![("k1".to_string(), 2), ("fresh".to_string(), 9)],
        },
    );
    assert!(matches!(
        node.handle(commit).unwrap().body.payload,
        KafkaPayload::CommitOffsetsOk
    ));
    let list = Message::new(
        "c1".to_string(),
        "n1".to_string(),
        KafkaPayload::ListCommittedOffsets {
            keys: vec!["k1".to_string(), "fresh".to_string(), "absent".to_string()],
        },
    );
    match node.handle(list).unwrap().body.payload {
        KafkaPayload::ListCommittedOffsetsOk { offsets } => {
            assert_eq!(
                offsets,
                vec![
                    ("k1".to_string(), 2),
                    ("fresh".to_string(), 9),
                    ("absent".to_string(), 0)
                ]
            );
        }
        _ => panic!("expected list_committed_offsets_ok"),
    }
}

#[test]
fn kafka_later_commit_overrides_earlier() {
    let mut node = SingleNodeKafkaNode::new();
    let commit = Message::new(
        "c1".to_string(),
        "n1".to_string(),
        KafkaPayload::CommitOffsets {
            offsets: vec![("k1".to_string(), 2), ("k1".to_string(), 5)],
        },
    );
    node.handle(commit).unwrap();
    let list = Message::new(
        "c1".to_string(),
        "n1".to_string(),
        KafkaPayload::ListCommittedOffsets { keys: vec!["k1".to_string()] },
    );
    match node.handle(list).unwrap().body.payload {
        KafkaPayload::ListCommittedOffsetsOk { offsets } => {
            assert_eq!(offsets, vec![("k1".to_string(), 5)]);
        }
        _ => panic!("expected list_committed_offsets_ok"),
    }
}
