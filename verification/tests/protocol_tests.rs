use gossip_glomers::protocol::Message;
use gossip_glomers::sender::{Output, Sender};
use gossip_glomers::seq_kv::{is_from_seq_kv, new_seq_kv, SeqKvPayload};
use gossip_glomers::service::{Request, Response};

#[test]
fn response_swaps_direction_and_correlates() {
    let mut request: Message<u64> = Message::new("c1".to_string(), "n1".to_string(), 10);
    request.body.id = Some(41);
    let reply = request.make_response(99);
    assert_eq!(reply.src, "n1");
    assert_eq!(reply.dst, "c1");
    assert_eq!(reply.body.in_reply_to, Some(41));
    assert_eq!(reply.body.id, None);
    assert_eq!(reply.body.payload, 99);
}

#[test]
fn response_to_unstamped_request_has_no_correlation() {
    let request: Message<u64> = Message::new("c1".to_string(), "n1".to_string(), 1);
    let reply = request.make_response(2);
    assert_eq!(reply.body.in_reply_to, None);
}

#[test]
fn output_ids_count_up_from_zero() {
    let mut sender = Sender::new();
    let mut seen: Vec<usize> = Vec::new();
    for k in 0..5u64 {
        let msg: Message<u64> = Message::new("n1".to_string(), "n2".to_string(), k);
        let (stamped, id) = sender.handle(Output(msg));
        assert_eq!(stamped.body.id, Some(id));
        seen.push(id);
    }
    assert_eq!(seen, vec![0, 1, 2, 3, 4]);
}

#[test]
fn stamping_keeps_the_envelope() {
    let mut sender = Sender::new();
    let msg: Message<u64> = Message::new("a".to_string(), "b".to_string(), 7);
    let (stamped, id) = sender.handle(Output(msg));
    assert_eq!(id, 0);
    assert_eq!(stamped.src, "a");
    assert_eq!(stamped.dst, "b");
    assert_eq!(stamped.body.payload, 7);
    assert_eq!(stamped.body.in_reply_to, None);
}

#[test]
fn rpc_reply_resolves_only_the_matching_slot() {
    let mut sender = Sender::new();
    let mut service = new_seq_kv();
    let (stamped, id) = service.handle_request(
        &mut sender,
        Request("n1".to_string(), SeqKvPayload::Read { key: "n2".to_string() }),
    );
    assert_eq!(stamped.src, "n1");
    assert_eq!(stamped.dst, "seq-kv");
    assert_eq!(stamped.body.id, Some(id));

    // An unrelated reply with a different in_reply_to resolves nothing.
    let mut unrelated: Message<SeqKvPayload> =
        Message::new("seq-kv".to_string(), "n1".to_string(), SeqKvPayload::WriteOk);
    unrelated.body.in_reply_to = Some(id + 1);
    assert!(service.handle_response(Response(unrelated)).is_none());

    // The reply built from the stamped request resolves the slot.
    let reply = stamped.make_response(SeqKvPayload::ReadOk { value: "5".to_string() });
    let resolved = service.handle_response(Response(reply)).expect("matching reply must resolve");
    assert_eq!(resolved.body.in_reply_to, Some(id));

    // The slot is single-resolution: a retransmission is discarded.
    let again = stamped.make_response(SeqKvPayload::ReadOk { value: "5".to_string() });
    assert!(service.handle_response(Response(again)).is_none());
}

#[test]
fn reply_without_correlation_is_discarded() {
    let mut service = new_seq_kv();
    let stray: Message<SeqKvPayload> =
        Message::new("seq-kv".to_string(), "n1".to_string(), SeqKvPayload::WriteOk);
    assert!(service.handle_response(Response(stray)).is_none());
}

#[test]
fn seq_kv_routing_check() {
    assert!(is_from_seq_kv(&"seq-kv".to_string()));
    assert!(!is_from_seq_kv(&"n1".to_string()));
    assert!(!is_from_seq_kv(&"seq-kv2".to_string()));
}
