//! The consensus category handler.  Unlike the other categories it does
//! not receive pre-computed metrics: it receives raw block data (one
//! block with its proof, or a sync-response batch) and derives four
//! metrics itself — chain height, block interval, last block generator
//! and a monotonic transaction counter.  A candidate block is applied
//! only when its height is exactly one above the current height, or at
//! bootstrap; any other candidate is silently discarded.

use vstd::prelude::*;
use vstd::arithmetic::div_mod::lemma_add_mod_noop;
use crate::codec::{decode_block_msg, spec_decode_block_msg, Block, BlockMsg, BlockMsgModel,
    DecodeError};
use crate::proto::{Metric, MetricKey, MetricModel, MetricKeyModel, MetricType};

verus! {

/// The interval reported for the first block after bootstrap, in
/// thousandths of a second.
pub const BOOTSTRAP_INTERVAL_MILLI: u64 = 3000;

/// The consensus-derived state: the four derived metrics plus the
/// timestamp bookkeeping behind the interval, and whether anything was
/// ever ingested.
#[derive(Clone, Copy, PartialEq, Eq, Structural, Debug)]
pub struct ConsensusState {
    pub block_number: u64,
    /// Interval between the last two applied blocks, in thousandths of a
    /// second.
    pub block_interval_milli: u64,
    pub last_block_generator: u64,
    pub transaction_counter: u64,
    pub last_block_timestamp: u64,
    pub current_block_timestamp: u64,
    pub ingested: bool,
}

/// The state every handler starts from.
pub open spec fn spec_initial_state() -> ConsensusState {
    ConsensusState {
        block_number: 0,
        block_interval_milli: 0,
        last_block_generator: 0,
        transaction_counter: 0,
        last_block_timestamp: 0,
        current_block_timestamp: 0,
        ingested: false,
    }
}

/// Height gating: a candidate is applied only one above the current
/// height, or at bootstrap.
pub open spec fn spec_accepts(current: u64, candidate: u64) -> bool {
    candidate == current + 1 || current == 0
}

/// The reported interval: the difference of the two header timestamps,
/// with a fixed fallback when there is no previous timestamp.  A
/// timestamp that goes backwards reports zero rather than failing.
pub open spec fn spec_interval_milli(prev: u64, ts: u64) -> u64 {
    if prev == 0 {
        BOOTSTRAP_INTERVAL_MILLI
    } else if ts >= prev {
        (ts - prev) as u64
    } else {
        0u64
    }
}

/// Generator attribution: the validator picked by
/// `(proof height + proof round) mod validator count`; skipped (the
/// previous attribution stands) when the proof height is the unset
/// sentinel.
pub open spec fn spec_generator(
    gen_before: u64,
    validator_count: u64,
    proof_height: u64,
    proof_round: u64,
) -> u64
    recommends
        validator_count >= 1,
{
    if proof_height == u64::MAX {
        gen_before
    } else {
        ((proof_height + proof_round) % (validator_count as int)) as u64
    }
}

/// What one candidate block does to the state: nothing when the height
/// gate rejects it; otherwise the four metrics are re-derived.
pub open spec fn spec_step(s: ConsensusState, validator_count: u64, b: Block) -> ConsensusState
    recommends
        validator_count >= 1,
{
    if spec_accepts(s.block_number, b.height) {
        ConsensusState {
            block_number: b.height,
            block_interval_milli: spec_interval_milli(s.current_block_timestamp, b.timestamp),
            last_block_generator: spec_generator(
                s.last_block_generator,
                validator_count,
                b.proof_height,
                b.proof_round,
            ),
            transaction_counter: if s.transaction_counter + b.tx_count <= u64::MAX {
                (s.transaction_counter + b.tx_count) as u64
            } else {
                u64::MAX
            },
            last_block_timestamp: s.current_block_timestamp,
            current_block_timestamp: b.timestamp,
            ingested: s.ingested,
        }
    } else {
        s
    }
}

/// A sync-response batch applied block by block, in the order supplied.
pub open spec fn spec_steps(s: ConsensusState, validator_count: u64, bs: Seq<Block>) -> ConsensusState
    decreases bs.len(),
{
    if bs.len() == 0 {
        s
    } else {
        spec_steps(spec_step(s, validator_count, bs[0]), validator_count, bs.subrange(1, bs.len() as int))
    }
}

/// The state with ingestion recorded.
pub open spec fn spec_mark_ingested(s: ConsensusState) -> ConsensusState {
    ConsensusState { ingested: true, ..s }
}

/// What one decoded consensus-topic message does to the state.
pub open spec fn spec_apply_msg(
    s: ConsensusState,
    validator_count: u64,
    m: BlockMsgModel,
) -> ConsensusState {
    match m {
        BlockMsgModel::BlockWithProof(b) => spec_mark_ingested(spec_step(s, validator_count, b)),
        BlockMsgModel::SyncResponse(bs) => spec_mark_ingested(
            spec_steps(s, validator_count, bs),
        ),
        BlockMsgModel::Other => spec_mark_ingested(s),
    }
}

/// Applying one more block at the end of a batch is one more step.
pub proof fn lemma_steps_push(s: ConsensusState, validator_count: u64, bs: Seq<Block>, b: Block)
    requires
        validator_count >= 1,
    ensures
        spec_steps(s, validator_count, bs.push(b)) == spec_step(
            spec_steps(s, validator_count, bs),
            validator_count,
            b,
        ),
    decreases bs.len(),
{
    if bs.len() == 0 {
        let t = bs.push(b);
        assert(t.len() == 1);
        assert(t[0] == b);
        assert(spec_steps(s, validator_count, t) == spec_steps(
            spec_step(s, validator_count, t[0]),
            validator_count,
            t.subrange(1, t.len() as int),
        ));
        assert(t.subrange(1, t.len() as int) =~= Seq::<Block>::empty());
        assert(spec_steps(spec_step(s, validator_count, b), validator_count, Seq::<Block>::empty())
            == spec_step(s, validator_count, b));
        assert(spec_steps(s, validator_count, bs) == s);
    } else {
        assert(bs.push(b).subrange(1, bs.len() as int + 1) =~= bs.subrange(
            1,
            bs.len() as int,
        ).push(b));
        assert(bs.push(b)[0] == bs[0]);
        lemma_steps_push(
            spec_step(s, validator_count, bs[0]),
            validator_count,
            bs.subrange(1, bs.len() as int),
            b,
        );
    }
}

/// Law: the chain height never decreases; every accepted candidate is
/// either the bootstrap block or raises the height by exactly one; and
/// a rejected candidate leaves the whole derived state unchanged, so
/// rejection can be repeated without effect.
pub proof fn lemma_height_gating(s: ConsensusState, validator_count: u64, b: Block)
    ensures
        spec_step(s, validator_count, b).block_number >= s.block_number,
        spec_accepts(s.block_number, b.height) ==> (s.block_number == 0 || spec_step(
            s,
            validator_count,
            b,
        ).block_number == s.block_number + 1),
        s.block_number != 0 && spec_accepts(s.block_number, b.height) ==> spec_step(
            s,
            validator_count,
            b,
        ).block_number == s.block_number + 1,
        !spec_accepts(s.block_number, b.height) ==> spec_step(s, validator_count, b) == s,
        !spec_accepts(s.block_number, b.height) ==> spec_step(
            spec_step(s, validator_count, b),
            validator_count,
            b,
        ) == s,
{
}

/// Law: the chain height never decreases across any ingested message,
/// whatever kind it decodes to.
pub proof fn lemma_height_monotonic_over_messages(
    s: ConsensusState,
    validator_count: u64,
    m: BlockMsgModel,
)
    ensures
        spec_apply_msg(s, validator_count, m).block_number >= s.block_number,
{
    match m {
        BlockMsgModel::BlockWithProof(b) => {
            lemma_height_gating(s, validator_count, b);
        },
        BlockMsgModel::SyncResponse(bs) => {
            lemma_height_monotonic_over_batch(s, validator_count, bs);
        },
        BlockMsgModel::Other => {},
    }
}

/// Law: over a whole batch, the chain height never decreases.
pub proof fn lemma_height_monotonic_over_batch(
    s: ConsensusState,
    validator_count: u64,
    bs: Seq<Block>,
)
    ensures
        spec_steps(s, validator_count, bs).block_number >= s.block_number,
    decreases bs.len(),
{
    if bs.len() != 0 {
        lemma_height_gating(s, validator_count, bs[0]);
        lemma_height_monotonic_over_batch(
            spec_step(s, validator_count, bs[0]),
            validator_count,
            bs.subrange(1, bs.len() as int),
        );
    }
}

/// Law: the first accepted block after bootstrap reports the fallback
/// interval; an accepted block with a previous timestamp reports the
/// timestamp difference in thousandths of a second.
pub proof fn lemma_interval(s: ConsensusState, validator_count: u64, b: Block)
    requires
        spec_accepts(s.block_number, b.height),
    ensures
        s.current_block_timestamp == 0 ==> spec_step(s, validator_count, b).block_interval_milli
            == BOOTSTRAP_INTERVAL_MILLI,
        s.current_block_timestamp != 0 && b.timestamp >= s.current_block_timestamp ==> spec_step(
            s,
            validator_count,
            b,
        ).block_interval_milli == b.timestamp - s.current_block_timestamp,
{
}

/// How one `process` call relates the handler's state before and after:
/// a payload that decodes is applied as `spec_apply_msg` says and is
/// acknowledged; one that does not is rejected with the state retained.
/// The endpoint binding and the validator-set size never change.
pub open spec fn spec_consensus_process(
    pre: ConsensusMetrics,
    post: ConsensusMetrics,
    data: Seq<u8>,
    r: Result<(), DecodeError>,
) -> bool {
    &&& post.wf()
    &&& post.spec_url() == pre.spec_url()
    &&& post.spec_validator_count() == pre.spec_validator_count()
    &&& match spec_decode_block_msg(data) {
        Some(m) => r is Ok && post.spec_state() == spec_apply_msg(
            pre.spec_state(),
            pre.spec_validator_count(),
            m,
        ),
        None => r is Err && post.spec_state() == pre.spec_state(),
    }
}

/// The consensus handler: the endpoint it is bound to, the configured
/// validator-set size, and the derived state.
pub struct ConsensusMetrics {
    amqp_url: String,
    validator_count: u64,
    state: ConsensusState,
}

impl ConsensusMetrics {
    /// The handler is well-formed: attribution needs a non-empty
    /// validator set.
    pub closed spec fn wf(&self) -> bool {
        self.validator_count >= 1
    }

    /// The endpoint tag this handler stamps onto its metrics.
    pub closed spec fn spec_url(&self) -> Seq<char> {
        self.amqp_url@
    }

    /// The configured validator-set size.
    pub closed spec fn spec_validator_count(&self) -> u64 {
        self.validator_count
    }

    /// The derived state.
    pub closed spec fn spec_state(&self) -> ConsensusState {
        self.state
    }

    /// A fresh handler for one endpoint, with the cluster's
    /// validator-set size.
    pub fn new(amqp_url: &str, validator_count: u64) -> (m: ConsensusMetrics)
        requires
            validator_count >= 1,
        ensures
            m.wf(),
            m.spec_url() == amqp_url@,
            m.spec_validator_count() == validator_count,
            m.spec_state() == spec_initial_state(),
    {
        ConsensusMetrics {
            amqp_url: amqp_url.to_owned(),
            validator_count,
            state: ConsensusState {
                block_number: 0,
                block_interval_milli: 0,
                last_block_generator: 0,
                transaction_counter: 0,
                last_block_timestamp: 0,
                current_block_timestamp: 0,
                ingested: false,
            },
        }
    }

    /// Attributes the last block to a validator by
    /// `(proof height + proof round) mod validator count`; an unset proof
    /// height skips attribution.
    fn set_last_block_generator(&mut self, proof_height: u64, proof_round: u64)
        requires
            old(self).wf(),
        ensures
            final(self).wf(),
            final(self).amqp_url == old(self).amqp_url,
            final(self).validator_count == old(self).validator_count,
            final(self).state == (ConsensusState {
                last_block_generator: spec_generator(
                    old(self).state.last_block_generator,
                    old(self).validator_count,
                    proof_height,
                    proof_round,
                ),
                ..old(self).state
            }),
    {
        if proof_height == u64::MAX {
            return;
        }
        let vc = self.validator_count as u128;
        let node_id = ((proof_height as u128 % vc) + (proof_round as u128 % vc)) % vc;
        proof {
            lemma_add_mod_noop(proof_height as int, proof_round as int, vc as int);
        }
        self.state.last_block_generator = node_id as u64;
    }

    /// Re-derives the interval from the candidate's header timestamp.
    fn set_block_interval(&mut self, block: &Block)
        ensures
            final(self).amqp_url == old(self).amqp_url,
            final(self).validator_count == old(self).validator_count,
            final(self).state == (ConsensusState {
                block_interval_milli: spec_interval_milli(
                    old(self).state.current_block_timestamp,
                    block.timestamp,
                ),
                last_block_timestamp: old(self).state.current_block_timestamp,
                current_block_timestamp: block.timestamp,
                ..old(self).state
            }),
    {
        self.state.last_block_timestamp = self.state.current_block_timestamp;
        self.state.current_block_timestamp = block.timestamp;
        let diff: u64 = if self.state.last_block_timestamp == 0 {
            BOOTSTRAP_INTERVAL_MILLI
        } else {
            self.state.current_block_timestamp.saturating_sub(self.state.last_block_timestamp)
        };
        self.state.block_interval_milli = diff;
    }

    /// Counts the candidate's transactions into the monotonic counter,
    /// saturating at the counter's ceiling.
    fn set_transaction_counter(&mut self, block: &Block)
        ensures
            final(self).amqp_url == old(self).amqp_url,
            final(self).validator_count == old(self).validator_count,
            final(self).state == (ConsensusState {
                transaction_counter: if old(self).state.transaction_counter + block.tx_count
                    <= u64::MAX {
                    (old(self).state.transaction_counter + block.tx_count) as u64
                } else {
                    u64::MAX
                },
                ..old(self).state
            }),
    {
        let tx_number = block.tx_count as u64;
        self.state.transaction_counter = self.state.transaction_counter.saturating_add(tx_number);
    }

    /// Applies one candidate block through the height gate.
    fn record_block(&mut self, block: &Block)
        requires
            old(self).wf(),
        ensures
            final(self).wf(),
            final(self).amqp_url == old(self).amqp_url,
            final(self).validator_count == old(self).validator_count,
            final(self).state == spec_step(old(self).state, old(self).validator_count, *block),
    {
        let block_height = block.height;
        let current_height = self.state.block_number;
        if (current_height < u64::MAX && block_height == current_height + 1)
            || current_height == 0 {
            self.state.block_number = block_height;
            self.set_last_block_generator(block.proof_height, block.proof_round);
            self.set_block_interval(block);
            self.set_transaction_counter(block);
        }
    }

    /// Ingests one consensus-topic payload: a block-with-proof is applied
    /// through the height gate; a sync-response batch is applied block by
    /// block in the order supplied; any other well-formed message is
    /// ignored; a malformed payload is rejected with the state unchanged.
    #[verifier::loop_isolation(false)]
    pub fn process(&mut self, data: Vec<u8>) -> (r: Result<(), DecodeError>)
        requires
            old(self).wf(),
        ensures
            spec_consensus_process(*old(self), *final(self), data@, r),
    {
        let ghost s0 = self.state;
        match decode_block_msg(&data) {
            Ok(BlockMsg::BlockWithProof(b)) => {
                self.record_block(&b);
                self.state.ingested = true;
                Ok(())
            },
            Ok(BlockMsg::SyncResponse(blocks)) => {
                let mut i: usize = 0;
                proof {
                    assert(blocks@.subrange(0, 0) =~= Seq::<Block>::empty());
                }
                while i < blocks.len()
                    invariant
                        i <= blocks.len(),
                        self.wf(),
                        self.amqp_url == old(self).amqp_url,
                        self.validator_count == old(self).validator_count,
                        self.state == spec_steps(
                            s0,
                            self.validator_count,
                            blocks@.subrange(0, i as int),
                        ),
                    decreases blocks.len() - i,
                {
                    let ghost prefix = blocks@.subrange(0, i as int);
                    let b = blocks[i];
                    self.record_block(&b);
                    i = i + 1;
                    proof {
                        assert(blocks@.subrange(0, i as int) =~= prefix.push(b));
                        lemma_steps_push(s0, self.validator_count, prefix, b);
                    }
                }
                proof {
                    assert(blocks@.subrange(0, blocks@.len() as int) =~= blocks@);
                }
                self.state.ingested = true;
                Ok(())
            },
            Ok(BlockMsg::Other) => {
                self.state.ingested = true;
                Ok(())
            },
            Err(e) => Err(e),
        }
    }

    /// The scrape-path snapshot: empty before anything was ingested,
    /// otherwise the four derived metrics, each tagged with the source
    /// endpoint.
    pub fn gather(&self) -> (out: Vec<Metric>)
        ensures
            out.deep_view() == spec_consensus_gather(self.spec_state(), self.spec_url()),
    {
        let mut out: Vec<Metric> = Vec::new();
        if !self.state.ingested {
            proof {
                assert(out.deep_view() =~= Seq::<MetricModel>::empty());
            }
            return out;
        }
        let interval = self.consensus_metric(
            "block_interval",
            MetricType::Gauge,
            self.state.block_interval_milli as i128,
        );
        let number = self.consensus_metric(
            "block_number",
            MetricType::Gauge,
            self.state.block_number as i128 * 1000,
        );
        let generator = self.consensus_metric(
            "last_block_generator",
            MetricType::Gauge,
            self.state.last_block_generator as i128 * 1000,
        );
        let counter = self.consensus_metric(
            "transaction_counter",
            MetricType::Counter,
            self.state.transaction_counter as i128 * 1000,
        );
        out.push(interval);
        out.push(number);
        out.push(generator);
        out.push(counter);
        proof {
            assert(out.deep_view() =~= spec_consensus_gather(self.spec_state(), self.spec_url()));
        }
        out
    }

    /// Builds one derived metric tagged with the source endpoint.
    fn consensus_metric(&self, name: &str, metric_type: MetricType, value_milli: i128) -> (out:
        Metric)
        ensures
            out@ == spec_consensus_metric(name@, metric_type, value_milli as int, self.spec_url()),
    {
        let mut labels: Vec<(String, String)> = Vec::new();
        labels.push(("amqp_url".to_owned(), self.amqp_url.clone()));
        proof {
            assert(labels.deep_view() =~= seq![("amqp_url"@, self.amqp_url@)]);
        }
        let out = Metric {
            key: MetricKey { metric_type, name: name.to_owned(), labels },
            value_milli,
        };
        proof {
            assert(out@ =~= spec_consensus_metric(
                name@,
                metric_type,
                value_milli as int,
                self.spec_url(),
            ));
        }
        out
    }
}

/// One derived consensus metric, tagged with the source endpoint.
pub open spec fn spec_consensus_metric(
    name: Seq<char>,
    metric_type: MetricType,
    value_milli: int,
    url: Seq<char>,
) -> MetricModel {
    MetricModel {
        key: MetricKeyModel { metric_type, name, labels: seq![("amqp_url"@, url)] },
        value_milli,
    }
}

/// The consensus snapshot the scrape path sees for a given state.
pub open spec fn spec_consensus_gather(s: ConsensusState, url: Seq<char>) -> Seq<MetricModel> {
    if !s.ingested {
        Seq::empty()
    } else {
        seq![
            spec_consensus_metric("block_interval"@, MetricType::Gauge, s.block_interval_milli as int, url),
            spec_consensus_metric("block_number"@, MetricType::Gauge, s.block_number * 1000, url),
            spec_consensus_metric(
                "last_block_generator"@,
                MetricType::Gauge,
                s.last_block_generator * 1000,
                url,
            ),
            spec_consensus_metric(
                "transaction_counter"@,
                MetricType::Counter,
                s.transaction_counter * 1000,
                url,
            ),
        ]
    }
}

} // verus!
