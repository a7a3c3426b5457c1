use chain_monitor::blocks::block_row;
use chain_monitor::codec::{decode_block_msg, decode_metrics, BlockMsg};
use chain_monitor::config::Config;
use chain_monitor::consensus_metrics::ConsensusMetrics;
use chain_monitor::dispatcher::{collect_all, route, Category, Dispatcher};
use chain_monitor::metrics::Metrics;
use chain_monitor::proto::{Metric, MetricType};
use chain_monitor::server::{Server, SharedDispatcher};

// ---- payload builders for the wire grammars ----

fn push_str(v: &mut Vec<u8>, s: &str) {
    v.extend_from_slice(&(s.len() as u16).to_le_bytes());
    v.extend_from_slice(s.as_bytes());
}

fn push_sample(v: &mut Vec<u8>, tag: u8, name: &str, labels: &[(&str, &str)], value_milli: i128) {
    v.push(tag);
    push_str(v, name);
    v.extend_from_slice(&(labels.len() as u16).to_le_bytes());
    for (k, val) in labels {
        push_str(v, k);
        push_str(v, val);
    }
    v.extend_from_slice(&(value_milli as u128).to_le_bytes());
}

fn metrics_payload(samples: &[(u8, &str, Vec<(&str, &str)>, i128)]) -> Vec<u8> {
    let mut v = (samples.len() as u32).to_le_bytes().to_vec();
    for (tag, name, labels, value) in samples {
        push_sample(&mut v, *tag, name, labels, *value);
    }
    v
}

fn push_block(v: &mut Vec<u8>, height: u64, ts: u64, proof_height: u64, proof_round: u64, txs: u32) {
    v.extend_from_slice(&height.to_le_bytes());
    v.extend_from_slice(&ts.to_le_bytes());
    v.extend_from_slice(&proof_height.to_le_bytes());
    v.extend_from_slice(&proof_round.to_le_bytes());
    v.extend_from_slice(&txs.to_le_bytes());
}

fn block_payload(height: u64, ts: u64, proof_height: u64, proof_round: u64, txs: u32) -> Vec<u8> {
    let mut v = vec![0u8];
    push_block(&mut v, height, ts, proof_height, proof_round, txs);
    v
}

fn sync_payload(blocks: &[(u64, u64, u64, u64, u32)]) -> Vec<u8> {
    let mut v = vec![1u8];
    v.extend_from_slice(&(blocks.len() as u32).to_le_bytes());
    for (h, ts, ph, pr, txs) in blocks {
        push_block(&mut v, *h, *ts, *ph, *pr, *txs);
    }
    v
}

fn value_of(out: &[Metric], name: &str) -> i128 {
    for m in out {
        if m.key.name == name {
            return m.value_milli;
        }
    }
    panic!("metric {} not found", name);
}

// ---- codec ----

#[test]
fn decode_metrics_roundtrip() {
    let payload = metrics_payload(&[
        (0, "request_count", vec![("method", "eth_call")], 42_000),
        (1, "queue_depth", vec![], -1_500i128 as i128),
    ]);
    let out = decode_metrics(&payload).expect("payload follows the grammar");
    assert_eq!(out.len(), 2);
    assert_eq!(out[0].key.metric_type, MetricType::Counter);
    assert_eq!(out[0].key.name, "request_count");
    assert_eq!(out[0].key.labels.len(), 1);
    assert_eq!(out[0].key.labels[0].0, "method");
    assert_eq!(out[0].key.labels[0].1, "eth_call");
    assert_eq!(out[0].value_milli, 42_000);
    assert_eq!(out[1].key.metric_type, MetricType::Gauge);
    assert_eq!(out[1].key.name, "queue_depth");
    assert_eq!(out[1].value_milli, -1_500);
}

#[test]
fn decode_metrics_rejects_malformed() {
    assert!(decode_metrics(&vec![]).is_err());
    assert!(decode_metrics(&vec![1, 0, 0, 0]).is_err());
    let mut bad_tag = metrics_payload(&[(0, "a", vec![], 0)]);
    bad_tag[4] = 9;
    assert!(decode_metrics(&bad_tag).is_err());
    let mut trailing = metrics_payload(&[(0, "a", vec![], 0)]);
    trailing.push(0);
    assert!(decode_metrics(&trailing).is_err());
    let mut bad_utf8 = metrics_payload(&[(0, "ab", vec![], 0)]);
    bad_utf8[7] = 0xff;
    assert!(decode_metrics(&bad_utf8).is_err());
}

#[test]
fn decode_block_msg_variants() {
    let p = block_payload(7, 1000, 6, 1, 3);
    match decode_block_msg(&p).unwrap() {
        BlockMsg::BlockWithProof(b) => {
            assert_eq!(b.height, 7);
            assert_eq!(b.timestamp, 1000);
            assert_eq!(b.proof_height, 6);
            assert_eq!(b.proof_round, 1);
            assert_eq!(b.tx_count, 3);
        }
        _ => panic!("expected a block with proof"),
    }
    let s = sync_payload(&[(1, 10, 0, 0, 1), (2, 20, 1, 0, 2)]);
    match decode_block_msg(&s).unwrap() {
        BlockMsg::SyncResponse(bs) => {
            assert_eq!(bs.len(), 2);
            assert_eq!(bs[0].height, 1);
            assert_eq!(bs[1].height, 2);
        }
        _ => panic!("expected a sync response"),
    }
    match decode_block_msg(&vec![9u8, 1, 2, 3]).unwrap() {
        BlockMsg::Other => {}
        _ => panic!("an unknown tag is a message of no interest"),
    }
    assert!(decode_block_msg(&vec![]).is_err());
    assert!(decode_block_msg(&vec![0u8, 1, 2]).is_err());
    assert!(decode_block_msg(&vec![1u8, 1]).is_err());
}

// ---- category handler ----

#[test]
fn snapshot_before_ingest_is_empty() {
    let m = Metrics::new("amqp://node0");
    assert_eq!(m.gather().len(), 0);
    let c = ConsensusMetrics::new("amqp://node0", 4);
    assert_eq!(c.gather().len(), 0);
}

#[test]
fn ingest_replaces_snapshot_wholesale() {
    let mut m = Metrics::new("amqp://node0");
    let p1 = metrics_payload(&[(0, "a", vec![], 1_000), (1, "b", vec![], 2_000)]);
    assert!(m.process(p1).is_ok());
    assert_eq!(m.gather().len(), 2);
    let p2 = metrics_payload(&[(2, "c", vec![], 3_000)]);
    assert!(m.process(p2).is_ok());
    let out = m.gather();
    assert_eq!(out.len(), 1);
    assert_eq!(out[0].key.name, "c");
}

#[test]
fn snapshot_is_tagged_with_the_endpoint() {
    let mut m = Metrics::new("amqp://node7");
    let p = metrics_payload(&[(0, "hits", vec![("route", "/tx")], 5_000)]);
    assert!(m.process(p).is_ok());
    let out = m.gather();
    assert_eq!(out[0].key.labels.len(), 2);
    assert_eq!(out[0].key.labels[0].0, "route");
    assert_eq!(out[0].key.labels[1].0, "amqp_url");
    assert_eq!(out[0].key.labels[1].1, "amqp://node7");
}

#[test]
fn malformed_payload_retains_previous_snapshot() {
    let mut m = Metrics::new("amqp://node0");
    let p = metrics_payload(&[(0, "kept", vec![], 1_000)]);
    assert!(m.process(p).is_ok());
    assert!(m.process(vec![0xde, 0xad]).is_err());
    let out = m.gather();
    assert_eq!(out.len(), 1);
    assert_eq!(out[0].key.name, "kept");
}

// ---- consensus handler ----

#[test]
fn height_gating_applies_and_rejects() {
    let mut c = ConsensusMetrics::new("amqp://node0", 4);
    // bootstrap: current height 0 accepts any candidate
    assert!(c.process(block_payload(101, 5_000, 100, 1, 2)).is_ok());
    assert_eq!(value_of(&c.gather(), "block_number"), 101_000);
    // a stale candidate leaves all consensus-derived state unchanged
    let before: Vec<(String, i128)> =
        c.gather().into_iter().map(|m| (m.key.name, m.value_milli)).collect();
    assert!(c.process(block_payload(99, 9_000, 98, 0, 7)).is_ok());
    let after: Vec<(String, i128)> =
        c.gather().into_iter().map(|m| (m.key.name, m.value_milli)).collect();
    assert_eq!(before, after);
    // the next height is applied and raises the height by exactly one
    assert!(c.process(block_payload(102, 10_000, 101, 0, 1)).is_ok());
    assert_eq!(value_of(&c.gather(), "block_number"), 102_000);
    // rejection can be repeated without effect
    let before: Vec<(String, i128)> =
        c.gather().into_iter().map(|m| (m.key.name, m.value_milli)).collect();
    assert!(c.process(block_payload(99, 11_000, 98, 0, 7)).is_ok());
    assert!(c.process(block_payload(99, 11_000, 98, 0, 7)).is_ok());
    let after: Vec<(String, i128)> =
        c.gather().into_iter().map(|m| (m.key.name, m.value_milli)).collect();
    assert_eq!(before, after);
}

#[test]
fn interval_default_then_difference() {
    let mut c = ConsensusMetrics::new("amqp://node0", 4);
    assert!(c.process(block_payload(1, 10_000, 0, 0, 0)).is_ok());
    // first accepted block after bootstrap: the 3.0 s fallback
    assert_eq!(value_of(&c.gather(), "block_interval"), 3_000);
    assert!(c.process(block_payload(2, 15_000, 1, 0, 0)).is_ok());
    // a second block 5000 ms later: 5.0 s
    assert_eq!(value_of(&c.gather(), "block_interval"), 5_000);
}

#[test]
fn generator_attribution() {
    let mut c = ConsensusMetrics::new("amqp://node0", 4);
    assert!(c.process(block_payload(1, 1_000, 5, 1, 0)).is_ok());
    // (5 + 1) mod 4
    assert_eq!(value_of(&c.gather(), "last_block_generator"), 2_000);
    // an unset proof height skips attribution
    assert!(c.process(block_payload(2, 2_000, u64::MAX, 3, 0)).is_ok());
    assert_eq!(value_of(&c.gather(), "last_block_generator"), 2_000);
}

#[test]
fn transaction_counter_accumulates() {
    let mut c = ConsensusMetrics::new("amqp://node0", 4);
    assert!(c.process(block_payload(1, 1_000, 0, 0, 3)).is_ok());
    assert!(c.process(block_payload(2, 2_000, 1, 0, 4)).is_ok());
    assert_eq!(value_of(&c.gather(), "transaction_counter"), 7_000);
}

#[test]
fn sync_response_applies_blocks_in_order() {
    let mut c = ConsensusMetrics::new("amqp://node0", 4);
    let s = sync_payload(&[(1, 1_000, 0, 0, 1), (2, 2_000, 1, 0, 2), (9, 9_000, 8, 0, 5)]);
    assert!(c.process(s).is_ok());
    // 1 and 2 applied, 9 rejected by the height gate
    assert_eq!(value_of(&c.gather(), "block_number"), 2_000);
    assert_eq!(value_of(&c.gather(), "transaction_counter"), 3_000);
}

#[test]
fn consensus_rejects_malformed_payload() {
    let mut c = ConsensusMetrics::new("amqp://node0", 4);
    assert!(c.process(vec![0u8, 1, 2, 3]).is_err());
    assert_eq!(c.gather().len(), 0);
}

// ---- router / dispatcher ----

fn new_dispatcher(url: &str) -> Dispatcher {
    Dispatcher::new(
        ConsensusMetrics::new(url, 4),
        Metrics::new(url),
        Metrics::new(url),
        Metrics::new(url),
    )
}

#[test]
fn route_matches_topics_exactly() {
    assert_eq!(route(&"jsonrpc.metrics".to_string()), Category::Jsonrpc);
    assert_eq!(route(&"auth.metrics".to_string()), Category::Auth);
    assert_eq!(route(&"network.metrics".to_string()), Category::Network);
    assert_eq!(route(&"consensus.blk".to_string()), Category::Consensus);
    assert_eq!(route(&"net.blk".to_string()), Category::Consensus);
    assert_eq!(route(&"jsonrpc.metrics2".to_string()), Category::Consensus);
}

#[test]
fn dispatcher_delivers_to_exactly_one_handler() {
    let mut d = new_dispatcher("amqp://node0");
    let p = metrics_payload(&[(0, "rpc_calls", vec![], 1_000)]);
    assert!(d.process(("jsonrpc.metrics".to_string(), p)).is_ok());
    let out = d.gather();
    assert_eq!(out.len(), 1);
    assert_eq!(out[0].key.name, "rpc_calls");
    // the consensus default path
    assert!(d.process(("consensus.blk".to_string(), block_payload(1, 1_000, 0, 0, 1))).is_ok());
    let out = d.gather();
    assert_eq!(out.len(), 5);
    assert_eq!(value_of(&out, "block_number"), 1_000);
}

#[test]
fn gather_concatenates_categories_in_order() {
    let mut d = new_dispatcher("amqp://node0");
    assert!(d.process(("auth.metrics".to_string(), metrics_payload(&[(0, "auth_a", vec![], 1)]))).is_ok());
    assert!(d.process(("network.metrics".to_string(), metrics_payload(&[(0, "net_a", vec![], 2)]))).is_ok());
    let out = d.gather();
    assert_eq!(out.len(), 2);
    assert_eq!(out[0].key.name, "auth_a");
    assert_eq!(out[1].key.name, "net_a");
}

#[test]
fn collect_all_concatenates_dispatchers() {
    let mut d0 = new_dispatcher("amqp://node0");
    let d1 = new_dispatcher("amqp://node1");
    assert!(d0.process(("jsonrpc.metrics".to_string(), metrics_payload(&[(0, "x", vec![], 1)]))).is_ok());
    let all = collect_all(&vec![d0, d1]);
    assert_eq!(all.len(), 1);
    assert_eq!(all[0].key.name, "x");
    assert_eq!(all[0].key.labels[0].1, "amqp://node0");
}


#[test]
fn shared_dispatcher_snapshot_is_consistent() {
    let shared = SharedDispatcher::new(new_dispatcher("amqp://node0"));
    assert_eq!(shared.snapshot().len(), 0);
    let p = metrics_payload(&[(0, "rpc_calls", vec![], 4_000)]);
    assert!(shared.ingest(("jsonrpc.metrics".to_string(), p)).is_ok());
    assert!(shared.ingest(("jsonrpc.metrics".to_string(), vec![0xff])).is_err());
    let out = shared.snapshot();
    assert_eq!(out.len(), 1);
    assert_eq!(out[0].key.name, "rpc_calls");
    assert_eq!(out[0].value_milli, 4_000);
}

#[test]
fn server_collects_all_endpoints() {
    let d0 = SharedDispatcher::new(new_dispatcher("amqp://node0"));
    let d1 = SharedDispatcher::new(new_dispatcher("amqp://node1"));
    assert!(d1.ingest(("auth.metrics".to_string(), metrics_payload(&[(1, "g", vec![], 500)]))).is_ok());
    let server = Server { dispatchers: vec![d0, d1], timeout: 5 };
    let out = server.collect();
    assert_eq!(out.len(), 1);
    assert_eq!(out[0].key.name, "g");
    assert_eq!(out[0].key.labels[0].1, "amqp://node1");
}

// ---- per-block analytics ----

#[test]
fn block_row_quota_per_tx() {
    let r = block_row(10, 4, 1000);
    assert_eq!(r.quota_per_tx, 250);
    let r0 = block_row(10, 0, 1000);
    assert_eq!(r0.quota_per_tx, 0);
    assert_eq!(r0.height, 10);
    assert_eq!(r0.txs_num, 0);
    assert_eq!(r0.quota_used, 1000);
}

#[test]
fn config_node_count() {
    let c = Config {
        amqp_urls: vec!["amqp://node0".to_string(), "amqp://node1".to_string()],
        duration: 5,
    };
    assert_eq!(c.node_count(), 2);
}
