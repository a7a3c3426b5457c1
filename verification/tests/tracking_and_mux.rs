use chain_monitor::amqp_client::Handler;
use chain_monitor::mux::FanIn;
use chain_monitor::transactions::{
    decode_node_msg, get_tx_from_response, get_txs_from_request, hex_string, parse_hash_hex,
    parse_tx_response, HandleOutcome, MsgContent, Node, NodeMsg, RequestMsg, ResponseMsg, Trace,
    TransactionsTrack,
};

fn h(seed: u8) -> Vec<u8> {
    let mut v = vec![0u8; 32];
    v[0] = seed;
    v[31] = seed;
    v
}

fn hex64(seed: u8) -> String {
    hex_string(&h(seed))
}

// ---- hex rendering and parsing ----

#[test]
fn hex_string_renders_bytes() {
    assert_eq!(hex_string(&vec![]), "0x");
    assert_eq!(hex_string(&vec![0x00, 0xab, 0x1f]), "0x00ab1f");
}

#[test]
fn parse_hash_hex_roundtrip() {
    let bytes = h(0x7e);
    let rendered = hex_string(&bytes);
    assert_eq!(parse_hash_hex(&rendered), Some(bytes));
}

#[test]
fn parse_hash_hex_rejects_bad_shapes() {
    assert_eq!(parse_hash_hex(""), None);
    assert_eq!(parse_hash_hex("0x00"), None);
    // no prefix
    let no_prefix: String = "00".repeat(33);
    assert_eq!(parse_hash_hex(&no_prefix), None);
    // right length, one digit spoiled
    let mut spoiled = hex64(1);
    spoiled.replace_range(4..5, "g");
    assert_eq!(parse_hash_hex(&spoiled), None);
    // uppercase digits are accepted
    let upper = hex64(0xab).to_uppercase().replace("0X", "0x");
    assert_eq!(parse_hash_hex(&upper), Some(h(0xab)));
}

// ---- the JSON state body ----

#[test]
fn parse_tx_response_reads_hash_and_status() {
    let body = format!("{{\"hash\":\"{}\",\"status\":\"OK\"}}", hex64(9));
    let t = parse_tx_response(&body).expect("a well-formed state body parses");
    assert_eq!(t.hash, h(9));
    assert_eq!(t.status, "OK");
}

#[test]
fn parse_tx_response_rejects_bad_bodies() {
    assert!(parse_tx_response("not json").is_none());
    assert!(parse_tx_response("{\"status\":\"OK\"}").is_none());
    assert!(parse_tx_response("{\"hash\":7,\"status\":\"OK\"}").is_none());
    assert!(parse_tx_response("{\"hash\":\"0x12\",\"status\":\"OK\"}").is_none());
    let no_status = format!("{{\"hash\":\"{}\"}}", hex64(9));
    assert!(parse_tx_response(&no_status).is_none());
}

// ---- request / response extraction ----

#[test]
fn txs_from_request_prefers_the_batch() {
    let batch = RequestMsg { batch_req: Some(vec![h(1), h(2)]), un_tx: Some(h(3)) };
    assert_eq!(get_txs_from_request(batch), vec![h(1), h(2)]);
    let single = RequestMsg { batch_req: None, un_tx: Some(h(3)) };
    assert_eq!(get_txs_from_request(single), vec![h(3)]);
    let neither = RequestMsg { batch_req: None, un_tx: None };
    assert_eq!(get_txs_from_request(neither), Vec::<Vec<u8>>::new());
}

#[test]
fn tx_from_response_needs_a_state_body() {
    assert!(get_tx_from_response(&ResponseMsg { tx_state: None }).is_none());
    let body = format!("{{\"hash\":\"{}\",\"status\":\"OK\"}}", hex64(4));
    let r = ResponseMsg { tx_state: Some(body) };
    assert_eq!(get_tx_from_response(&r), Some(h(4)));
}

// ---- the node translator ----

#[test]
fn node_translates_requests_to_receive_from() {
    let node = Node::new("amqp://node2", 2);
    let msg = NodeMsg {
        origin: 0,
        content: MsgContent::Request(RequestMsg {
            batch_req: Some(vec![h(1), h(2)]),
            un_tx: None,
        }),
    };
    let traces = node.translate(msg);
    assert_eq!(traces.len(), 2);
    match &traces[0] {
        Trace::ReceiveFrom(hash, to, from) => {
            assert_eq!(hash, &h(1));
            assert_eq!(*to, 2);
            assert_eq!(*from, 0);
        }
        _ => panic!("a request witnesses receptions"),
    }
    match &traces[1] {
        Trace::ReceiveFrom(hash, _, _) => assert_eq!(hash, &h(2)),
        _ => panic!("a request witnesses receptions"),
    }
}

#[test]
fn node_translates_responses_to_original() {
    let node = Node::new("amqp://node1", 1);
    let body = format!("{{\"hash\":\"{}\",\"status\":\"OK\"}}", hex64(5));
    let msg = NodeMsg {
        origin: 3,
        content: MsgContent::Response(ResponseMsg { tx_state: Some(body) }),
    };
    let traces = node.translate(msg);
    assert_eq!(traces.len(), 1);
    match &traces[0] {
        Trace::Original(hash, n) => {
            assert_eq!(hash, &h(5));
            assert_eq!(*n, 1);
        }
        _ => panic!("a state response witnesses an origination"),
    }
    let none = node.translate(NodeMsg { origin: 3, content: MsgContent::Other });
    assert_eq!(none.len(), 0);
}

#[test]
fn trace_tx_hash() {
    assert_eq!(Trace::Original(h(1), 0).tx_hash(), h(1));
    assert_eq!(Trace::ReceiveFrom(h(2), 1, 0).tx_hash(), h(2));
}

// ---- the provenance tracker ----

#[test]
fn provenance_completion_persists_and_removes() {
    let mut t = TransactionsTrack::new(4);
    assert!(matches!(t.handle(Trace::Original(h(1), 0)), HandleOutcome::Recorded));
    assert!(matches!(t.handle(Trace::ReceiveFrom(h(1), 1, 0)), HandleOutcome::Recorded));
    assert!(matches!(t.handle(Trace::ReceiveFrom(h(1), 2, 0)), HandleOutcome::Recorded));
    match t.handle(Trace::ReceiveFrom(h(1), 3, 1)) {
        HandleOutcome::Completed(trace) => {
            assert_eq!(trace.hash, hex64(1));
            assert_eq!(trace.original, 0);
            let edges: Vec<(u32, u32)> =
                trace.edges.iter().map(|e| (e.from_node, e.to_node)).collect();
            assert_eq!(edges, vec![(0, 1), (0, 2), (1, 3)]);
        }
        _ => panic!("the fourth event completes the trace"),
    }
    // the record is gone: a fresh originator is no longer a duplicate
    assert!(matches!(t.handle(Trace::Original(h(1), 2)), HandleOutcome::Recorded));
}

#[test]
fn first_write_wins_for_a_receiver() {
    let mut t = TransactionsTrack::new(2);
    assert!(matches!(t.handle(Trace::ReceiveFrom(h(1), 1, 0)), HandleOutcome::Recorded));
    // a later differing sender for the same receiver is silently ignored
    assert!(matches!(t.handle(Trace::ReceiveFrom(h(1), 1, 9)), HandleOutcome::Recorded));
    match t.handle(Trace::Original(h(1), 0)) {
        HandleOutcome::Completed(trace) => {
            assert_eq!(trace.edges.len(), 1);
            assert_eq!(trace.edges[0].from_node, 0);
            assert_eq!(trace.edges[0].to_node, 1);
        }
        _ => panic!("the originator completes a two-node trace"),
    }
}

#[test]
fn duplicate_original_is_a_protocol_violation() {
    let mut t = TransactionsTrack::new(4);
    assert!(matches!(t.handle(Trace::Original(h(1), 0)), HandleOutcome::Recorded));
    assert!(matches!(t.handle(Trace::Original(h(1), 3)), HandleOutcome::DuplicateOriginal));
}

#[test]
fn tracker_keeps_transactions_apart() {
    let mut t = TransactionsTrack::new(2);
    assert!(matches!(t.handle(Trace::ReceiveFrom(h(1), 1, 0)), HandleOutcome::Recorded));
    assert!(matches!(t.handle(Trace::ReceiveFrom(h(2), 1, 0)), HandleOutcome::Recorded));
    match t.handle(Trace::Original(h(2), 0)) {
        HandleOutcome::Completed(trace) => assert_eq!(trace.hash, hex64(2)),
        _ => panic!("the second transaction completes on its own"),
    }
    // the first transaction's record is still there
    assert!(matches!(t.handle(Trace::Original(h(1), 0)), HandleOutcome::Completed(_)));
}

#[test]
fn single_node_cluster_completes_on_origination() {
    let mut t = TransactionsTrack::new(1);
    match t.handle(Trace::Original(h(7), 0)) {
        HandleOutcome::Completed(trace) => {
            assert_eq!(trace.original, 0);
            assert_eq!(trace.edges.len(), 0);
        }
        _ => panic!("one node needs no relays"),
    }
}



#[test]
fn sweep_evicts_stale_records() {
    let mut t = TransactionsTrack::new(2);
    t.set_time(1_000);
    assert!(matches!(t.handle(Trace::ReceiveFrom(h(1), 1, 0)), HandleOutcome::Recorded));
    t.set_time(5_000);
    assert!(matches!(t.handle(Trace::ReceiveFrom(h(2), 1, 0)), HandleOutcome::Recorded));
    // everything older than two seconds goes
    assert_eq!(t.sweep(2_000), 1);
    // the fresh record survived: its originator still completes it
    assert!(matches!(t.handle(Trace::Original(h(2), 0)), HandleOutcome::Completed(_)));
    // the stale record is gone: its originator opens a fresh record
    assert!(matches!(t.handle(Trace::Original(h(1), 0)), HandleOutcome::Recorded));
}

#[test]
fn sweep_keeps_young_records() {
    let mut t = TransactionsTrack::new(4);
    t.set_time(1_000);
    assert!(matches!(t.handle(Trace::Original(h(3), 0)), HandleOutcome::Recorded));
    assert_eq!(t.sweep(2_000), 0);
    assert!(matches!(t.handle(Trace::Original(h(3), 1)), HandleOutcome::DuplicateOriginal));
}

// ---- the tracing-topic wire grammar ----

fn push_hash(v: &mut Vec<u8>, hash: &[u8]) {
    v.extend_from_slice(&(hash.len() as u16).to_le_bytes());
    v.extend_from_slice(hash);
}

fn request_payload(origin: u32, batch: Option<&[Vec<u8>]>, un_tx: Option<&[u8]>) -> Vec<u8> {
    let mut v = origin.to_le_bytes().to_vec();
    v.push(0);
    match batch {
        Some(hashes) => {
            v.push(1);
            v.extend_from_slice(&(hashes.len() as u32).to_le_bytes());
            for hash in hashes {
                push_hash(&mut v, hash);
            }
        }
        None => v.push(0),
    }
    match un_tx {
        Some(hash) => {
            v.push(1);
            push_hash(&mut v, hash);
        }
        None => v.push(0),
    }
    v
}

fn response_payload(origin: u32, state: Option<&str>) -> Vec<u8> {
    let mut v = origin.to_le_bytes().to_vec();
    v.push(1);
    match state {
        Some(body) => {
            v.push(1);
            v.extend_from_slice(&(body.len() as u16).to_le_bytes());
            v.extend_from_slice(body.as_bytes());
        }
        None => v.push(0),
    }
    v
}

#[test]
fn decode_node_msg_variants() {
    let req = request_payload(3, Some(&[h(1), h(2)]), None);
    match decode_node_msg(&req).unwrap() {
        NodeMsg { origin, content: MsgContent::Request(r) } => {
            assert_eq!(origin, 3);
            assert_eq!(r.batch_req, Some(vec![h(1), h(2)]));
            assert_eq!(r.un_tx, None);
        }
        _ => panic!("expected a request"),
    }
    let resp = response_payload(1, Some("{}"));
    match decode_node_msg(&resp).unwrap() {
        NodeMsg { content: MsgContent::Response(r), .. } => {
            assert_eq!(r.tx_state.as_deref(), Some("{}"));
        }
        _ => panic!("expected a response"),
    }
    let mut other = 9u32.to_le_bytes().to_vec();
    other.push(42);
    assert!(matches!(
        decode_node_msg(&other).unwrap(),
        NodeMsg { content: MsgContent::Other, .. }
    ));
    assert!(decode_node_msg(&vec![1, 2, 3]).is_err());
    let mut truncated = request_payload(3, Some(&[h(1)]), None);
    truncated.pop();
    assert!(decode_node_msg(&truncated).is_err());
    let mut trailing = response_payload(1, None);
    trailing.push(0);
    assert!(decode_node_msg(&trailing).is_err());
}

#[test]
fn node_handles_raw_messages() {
    let node = Node::new("amqp://node2", 2);
    let payload = request_payload(0, Some(&[h(1)]), None);
    let traces = node.handle(("net.tx".to_string(), payload));
    assert_eq!(traces.len(), 1);
    match &traces[0] {
        Trace::ReceiveFrom(hash, to, from) => {
            assert_eq!(hash, &h(1));
            assert_eq!(*to, 2);
            assert_eq!(*from, 0);
        }
        _ => panic!("a request witnesses receptions"),
    }
    let body = format!("{{\"hash\":\"{}\",\"status\":\"OK\"}}", hex64(8));
    let traces = node.handle(("auth.rpc".to_string(), response_payload(2, Some(&body))));
    assert!(matches!(&traces[0], Trace::Original(hash, 2) if hash == &h(8)));
    // a malformed payload witnesses nothing
    assert_eq!(node.handle(("net.tx".to_string(), vec![1])).len(), 0);
}

// ---- the fan-in multiplexer ----

fn ev(topic: &str, b: u8) -> (String, Vec<u8>) {
    (topic.to_string(), vec![b])
}

#[test]
fn mux_returns_all_events_from_all_sources() {
    let mut m = FanIn::new();
    let s0 = m.register();
    let s1 = m.register();
    let s2 = m.register();
    // one event per source, produced in arbitrary order
    assert!(m.push(s1, "t".to_string(), vec![1]));
    assert!(m.push(s0, "t".to_string(), vec![0]));
    assert!(m.push(s2, "t".to_string(), vec![2]));
    let mut seen = vec![false; 3];
    for _ in 0..3 {
        let (src, _, payload) = m.next().expect("a backlog yields an event");
        assert_eq!(payload, vec![src as u8]);
        assert!(!seen[src]);
        seen[src] = true;
    }
    assert!(seen.iter().all(|s| *s));
    assert!(m.next().is_none());
}

#[test]
fn mux_is_fifo_within_a_source() {
    let mut m = FanIn::new();
    let s0 = m.register();
    let (t1, p1) = ev("a", 1);
    let (t2, p2) = ev("b", 2);
    assert!(m.push(s0, t1, p1));
    assert!(m.push(s0, t2, p2));
    let (_, topic1, payload1) = m.next().unwrap();
    assert_eq!((topic1.as_str(), payload1), ("a", vec![1]));
    let (_, topic2, payload2) = m.next().unwrap();
    assert_eq!((topic2.as_str(), payload2), ("b", vec![2]));
}

#[test]
fn mux_round_robin_does_not_starve() {
    let mut m = FanIn::new();
    let s0 = m.register();
    let s1 = m.register();
    assert!(m.push(s0, "t".to_string(), vec![10]));
    assert!(m.push(s0, "t".to_string(), vec![11]));
    assert!(m.push(s1, "t".to_string(), vec![20]));
    let (a, _, _) = m.next().unwrap();
    assert_eq!(a, s0);
    // the cursor moved past source 0, so source 1 is served next
    let (b, _, _) = m.next().unwrap();
    assert_eq!(b, s1);
    let (c, _, payload) = m.next().unwrap();
    assert_eq!(c, s0);
    assert_eq!(payload, vec![11]);
    assert!(m.next().is_none());
}

#[test]
fn mux_rejects_unknown_handles() {
    let mut m = FanIn::new();
    let s0 = m.register();
    assert!(m.push(s0, "t".to_string(), vec![1]));
    assert!(!m.push(5, "t".to_string(), vec![1]));
}

// ---- the subscription delivery handler ----

#[test]
fn handler_forwards_deliveries() {
    let (tx, rx) = std::sync::mpsc::channel();
    let handler = Handler::new(tx);
    assert!(handler.handle_delivery("net.tx".to_string(), vec![1, 2, 3]));
    let (topic, payload) = rx.try_recv().expect("the event was forwarded");
    assert_eq!(topic, "net.tx");
    assert_eq!(payload, vec![1, 2, 3]);
    drop(rx);
    assert!(!handler.handle_delivery("net.tx".to_string(), vec![4]));
}
