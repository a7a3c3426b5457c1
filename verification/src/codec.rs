//! The byte grammars of the two payload families the bus delivers, with a
//! mathematical parser for each: pre-computed metric batches (jsonrpc,
//! auth, network categories) and raw block data (consensus category).
//! Every decoder's result equals the spec-level parse of its input, and a
//! payload is rejected exactly when the spec-level parse rejects it.
//!
//! Metric batch layout, little-endian throughout: a 4-byte sample count,
//! then per sample a 1-byte metric type tag, a length-prefixed UTF-8 name
//! (2-byte length), a 2-byte label count, per label two length-prefixed
//! UTF-8 strings, and a 16-byte value in thousandths of the unit.
//!
//! Block message layout: tag 0 is one block with its consensus proof
//! (height, timestamp, proof height, proof round, each 8 bytes, then a
//! 4-byte transaction count); tag 1 is a sync response batch (4-byte block
//! count, then that many blocks); any other tag is a message of no
//! interest to the consensus handler.

use vstd::prelude::*;
use vstd::bytes::{
    spec_u16_from_le_bytes, spec_u32_from_le_bytes, spec_u64_from_le_bytes,
    spec_u128_from_le_bytes, u16_from_le_bytes, u32_from_le_bytes, u64_from_le_bytes,
    u128_from_le_bytes,
};
use vstd::slice::{slice_subrange, slice_to_vec};
use vstd::utf8::{valid_utf8, decode_utf8};
use crate::proto::{Metric, MetricKey, MetricKeyModel, MetricModel, MetricType};

verus! {

/// Why a payload was rejected: it does not follow the wire grammar of its
/// category.
#[derive(Clone, Copy, PartialEq, Eq, Structural, Debug)]
pub enum DecodeError {
    Malformed,
}

/// The part of a raw block that the consensus handler derives metrics
/// from: header height and timestamp, the consensus proof's height and
/// round, and the number of transactions in the body.
#[derive(Clone, Copy, PartialEq, Eq, Structural, Debug)]
pub struct Block {
    pub height: u64,
    /// Header timestamp in milliseconds.
    pub timestamp: u64,
    /// Height carried by the consensus proof; `u64::MAX` when unset.
    pub proof_height: u64,
    pub proof_round: u64,
    pub tx_count: u32,
}

/// A decoded consensus-topic message.
pub enum BlockMsg {
    BlockWithProof(Block),
    SyncResponse(Vec<Block>),
    /// A consensus-topic message of a kind this handler does not derive
    /// metrics from.
    Other,
}

/// Mathematical model of a `BlockMsg`.
#[verifier::ext_equal]
pub enum BlockMsgModel {
    BlockWithProof(Block),
    SyncResponse(Seq<Block>),
    Other,
}

impl View for BlockMsg {
    type V = BlockMsgModel;

    open spec fn view(&self) -> BlockMsgModel {
        match self {
            BlockMsg::BlockWithProof(b) => BlockMsgModel::BlockWithProof(*b),
            BlockMsg::SyncResponse(v) => BlockMsgModel::SyncResponse(v@),
            BlockMsg::Other => BlockMsgModel::Other,
        }
    }
}

// ---------------------------------------------------------------------
// The spec-level parsers.
// ---------------------------------------------------------------------

/// The block whose fixed-width fields start at `pos`.
pub open spec fn spec_parse_block(b: Seq<u8>, pos: int) -> Block {
    Block {
        height: spec_u64_from_le_bytes(b.subrange(pos, pos + 8)),
        timestamp: spec_u64_from_le_bytes(b.subrange(pos + 8, pos + 16)),
        proof_height: spec_u64_from_le_bytes(b.subrange(pos + 16, pos + 24)),
        proof_round: spec_u64_from_le_bytes(b.subrange(pos + 24, pos + 32)),
        tx_count: spec_u32_from_le_bytes(b.subrange(pos + 32, pos + 36)),
    }
}

/// `count` consecutive blocks starting at `pos`.
pub open spec fn spec_parse_blocks(b: Seq<u8>, pos: int, count: nat) -> Seq<Block>
    decreases count,
{
    if count == 0 {
        Seq::empty()
    } else {
        seq![spec_parse_block(b, pos)] + spec_parse_blocks(b, pos + 36, (count - 1) as nat)
    }
}

/// The consensus-topic message a payload carries, or `None` when the
/// payload is malformed.
pub open spec fn spec_decode_block_msg(b: Seq<u8>) -> Option<BlockMsgModel> {
    if b.len() == 0 {
        None
    } else if b[0] == 0 {
        if b.len() == 1 + 36 {
            Some(BlockMsgModel::BlockWithProof(spec_parse_block(b, 1)))
        } else {
            None
        }
    } else if b[0] == 1 {
        if b.len() >= 5 {
            let c = spec_u32_from_le_bytes(b.subrange(1, 5)) as nat;
            if b.len() == 5 + 36 * c {
                Some(BlockMsgModel::SyncResponse(spec_parse_blocks(b, 5, c)))
            } else {
                None
            }
        } else {
            None
        }
    } else {
        Some(BlockMsgModel::Other)
    }
}

/// A length-prefixed UTF-8 string starting at `pos`: the decoded
/// characters and the position after it.
pub open spec fn spec_parse_str(b: Seq<u8>, pos: int) -> Option<(Seq<char>, int)> {
    if pos + 2 <= b.len() {
        let n = spec_u16_from_le_bytes(b.subrange(pos, pos + 2)) as int;
        if pos + 2 + n <= b.len() {
            let bytes = b.subrange(pos + 2, pos + 2 + n);
            if valid_utf8(bytes) {
                Some((decode_utf8(bytes), pos + 2 + n))
            } else {
                None
            }
        } else {
            None
        }
    } else {
        None
    }
}

/// `count` consecutive label pairs starting at `pos`.
pub open spec fn spec_parse_labels(b: Seq<u8>, pos: int, count: nat) -> Option<
    (Seq<(Seq<char>, Seq<char>)>, int),
>
    decreases count,
{
    if count == 0 {
        Some((Seq::empty(), pos))
    } else {
        match spec_parse_str(b, pos) {
            None => None,
            Some((k, p1)) => match spec_parse_str(b, p1) {
                None => None,
                Some((v, p2)) => match spec_parse_labels(b, p2, (count - 1) as nat) {
                    None => None,
                    Some((rest, p3)) => Some((seq![(k, v)] + rest, p3)),
                },
            },
        }
    }
}

/// The metric type a tag byte stands for.
pub open spec fn spec_metric_type(tag: u8) -> Option<MetricType> {
    if tag == 0 {
        Some(MetricType::Counter)
    } else if tag == 1 {
        Some(MetricType::Gauge)
    } else if tag == 2 {
        Some(MetricType::Histogram)
    } else {
        None
    }
}

/// One metric sample starting at `pos`: the sample and the position after
/// it.
pub open spec fn spec_parse_metric(b: Seq<u8>, pos: int) -> Option<(MetricModel, int)> {
    if pos + 1 <= b.len() {
        match spec_metric_type(b[pos]) {
            None => None,
            Some(mt) => match spec_parse_str(b, pos + 1) {
                None => None,
                Some((name, p1)) => if p1 + 2 <= b.len() {
                    let lc = spec_u16_from_le_bytes(b.subrange(p1, p1 + 2)) as nat;
                    match spec_parse_labels(b, p1 + 2, lc) {
                        None => None,
                        Some((labels, p2)) => if p2 + 16 <= b.len() {
                            let v = spec_u128_from_le_bytes(b.subrange(p2, p2 + 16)) as i128;
                            Some(
                                (
                                    MetricModel {
                                        key: MetricKeyModel { metric_type: mt, name, labels },
                                        value_milli: v as int,
                                    },
                                    p2 + 16,
                                ),
                            )
                        } else {
                            None
                        },
                    }
                } else {
                    None
                },
            },
        }
    } else {
        None
    }
}

/// `count` consecutive metric samples starting at `pos`.
pub open spec fn spec_parse_metrics(b: Seq<u8>, pos: int, count: nat) -> Option<
    (Seq<MetricModel>, int),
>
    decreases count,
{
    if count == 0 {
        Some((Seq::empty(), pos))
    } else {
        match spec_parse_metric(b, pos) {
            None => None,
            Some((m, p1)) => match spec_parse_metrics(b, p1, (count - 1) as nat) {
                None => None,
                Some((rest, p2)) => Some((seq![m] + rest, p2)),
            },
        }
    }
}

/// The metric batch a payload carries, or `None` when the payload is
/// malformed.  The whole payload must be consumed.
pub open spec fn spec_decode_metrics(b: Seq<u8>) -> Option<Seq<MetricModel>> {
    if b.len() >= 4 {
        let c = spec_u32_from_le_bytes(b.subrange(0, 4)) as nat;
        match spec_parse_metrics(b, 4, c) {
            None => None,
            Some((ms, p)) => if p == b.len() {
                Some(ms)
            } else {
                None
            },
        }
    } else {
        None
    }
}

/// Glues a parsed prefix onto the outcome of parsing the remaining label
/// pairs.
pub open spec fn labels_cont(
    prefix: Seq<(Seq<char>, Seq<char>)>,
    r: Option<(Seq<(Seq<char>, Seq<char>)>, int)>,
) -> Option<(Seq<(Seq<char>, Seq<char>)>, int)> {
    match r {
        None => None,
        Some((rest, e)) => Some((prefix + rest, e)),
    }
}

/// Glues a parsed prefix onto the outcome of parsing the remaining metric
/// samples.
pub open spec fn metrics_cont(
    prefix: Seq<MetricModel>,
    r: Option<(Seq<MetricModel>, int)>,
) -> Option<(Seq<MetricModel>, int)> {
    match r {
        None => None,
        Some((rest, e)) => Some((prefix + rest, e)),
    }
}

// ---------------------------------------------------------------------
// The executable decoders.
// ---------------------------------------------------------------------

/// Relies on `String::from_utf8`: returns the decoded string exactly when
/// the bytes are valid UTF-8, and nothing otherwise.
#[verifier::external_body]
pub(crate) fn string_from_utf8(v: Vec<u8>) -> (r: Option<String>)
    ensures
        match r {
            Some(s) => valid_utf8(v@) && s@ == decode_utf8(v@),
            None => !valid_utf8(v@),
        },
{
    String::from_utf8(v).ok()
}

/// Builds the string whose characters are exactly the given ASCII
/// bytes.  Everything but the final `String` construction is proved: the
/// bytes are shown to be valid UTF-8 that decodes to those characters.
pub(crate) fn ascii_to_string(v: Vec<u8>) -> (r: String)
    requires
        forall|i: int| 0 <= i < v@.len() ==> v@[i] < 128,
    ensures
        r@ == Seq::new(v@.len(), |i: int| v@[i] as char),
{
    let ghost chars = Seq::new(v@.len(), |i: int| v@[i] as char);
    proof {
        vstd::utf8::is_ascii_chars_encode_utf8(chars);
        assert(vstd::utf8::is_ascii_chars(chars));
        assert(vstd::utf8::encode_utf8(chars) =~= v@);
        vstd::utf8::encode_utf8_valid_utf8(chars);
        vstd::utf8::encode_utf8_decode_utf8(chars);
    }
    match string_from_utf8(v) {
        Some(s) => s,
        None => {
            proof {
                assert(false);
            }
            String::new()
        },
    }
}

/// Reads the block whose encoding starts at `pos`.
fn read_block(data: &Vec<u8>, pos: usize) -> (b: Block)
    requires
        pos + 36 <= data.len(),
    ensures
        b == spec_parse_block(data@, pos as int),
{
    let height = u64_from_le_bytes(slice_subrange(data.as_slice(), pos, pos + 8));
    let timestamp = u64_from_le_bytes(slice_subrange(data.as_slice(), pos + 8, pos + 16));
    let proof_height = u64_from_le_bytes(slice_subrange(data.as_slice(), pos + 16, pos + 24));
    let proof_round = u64_from_le_bytes(slice_subrange(data.as_slice(), pos + 24, pos + 32));
    let tx_count = u32_from_le_bytes(slice_subrange(data.as_slice(), pos + 32, pos + 36));
    Block { height, timestamp, proof_height, proof_round, tx_count }
}

/// Decodes a consensus-topic payload; rejects it exactly when it does not
/// follow the block message grammar.
#[verifier::loop_isolation(false)]
pub fn decode_block_msg(data: &Vec<u8>) -> (r: Result<BlockMsg, DecodeError>)
    ensures
        match r {
            Ok(m) => spec_decode_block_msg(data@) == Some(m@),
            Err(_) => spec_decode_block_msg(data@) is None,
        },
{
    if data.len() == 0 {
        return Err(DecodeError::Malformed);
    }
    let tag = data[0];
    if tag == 0 {
        if data.len() != 37 {
            return Err(DecodeError::Malformed);
        }
        let b = read_block(data, 1);
        Ok(BlockMsg::BlockWithProof(b))
    } else if tag == 1 {
        if data.len() < 5 {
            return Err(DecodeError::Malformed);
        }
        let count = u32_from_le_bytes(slice_subrange(data.as_slice(), 1, 5));
        let need: u64 = (count as u64) * 36 + 5;
        if (data.len() as u64) != need {
            return Err(DecodeError::Malformed);
        }
        let ghost c = count as nat;
        let mut blocks: Vec<Block> = Vec::new();
        let mut k: u32 = 0;
        let mut pos: usize = 5;
        while k < count
            invariant
                k <= count,
                pos == 5 + 36 * (k as int),
                data@.len() == 5 + 36 * (c as int),
                data@.len() == data.len(),
                c == count as nat,
                spec_parse_blocks(data@, 5, c) =~= blocks@ + spec_parse_blocks(
                    data@,
                    pos as int,
                    (c - k as nat) as nat,
                ),
                blocks@.len() == k as nat,
            decreases count - k,
        {
            let b = read_block(data, pos);
            proof {
                let remaining = (c - k as nat) as nat;
                assert(spec_parse_blocks(data@, pos as int, remaining) =~= seq![
                    spec_parse_block(data@, pos as int),
                ] + spec_parse_blocks(data@, pos as int + 36, (remaining - 1) as nat));
            }
            blocks.push(b);
            pos = pos + 36;
            k = k + 1;
            proof {
                assert(spec_parse_blocks(data@, 5, c) =~= blocks@ + spec_parse_blocks(
                    data@,
                    pos as int,
                    (c - k as nat) as nat,
                ));
            }
        }
        proof {
            assert(spec_parse_blocks(data@, pos as int, 0) =~= Seq::<Block>::empty());
            assert(spec_parse_blocks(data@, 5, c) =~= blocks@);
        }
        Ok(BlockMsg::SyncResponse(blocks))
    } else {
        Ok(BlockMsg::Other)
    }
}

/// Reads the length-prefixed UTF-8 string starting at `pos`.
pub(crate) fn parse_str(data: &Vec<u8>, pos: usize) -> (r: Result<(String, usize), DecodeError>)
    requires
        pos <= data@.len(),
    ensures
        match r {
            Ok((s, end)) => spec_parse_str(data@, pos as int) == Some((s@, end as int))
                && pos < end <= data@.len(),
            Err(_) => spec_parse_str(data@, pos as int) is None,
        },
{
    if data.len() - pos < 2 {
        return Err(DecodeError::Malformed);
    }
    let n = u16_from_le_bytes(slice_subrange(data.as_slice(), pos, pos + 2)) as usize;
    if data.len() - (pos + 2) < n {
        return Err(DecodeError::Malformed);
    }
    let bytes = slice_to_vec(slice_subrange(data.as_slice(), pos + 2, pos + 2 + n));
    match string_from_utf8(bytes) {
        Some(s) => Ok((s, pos + 2 + n)),
        None => Err(DecodeError::Malformed),
    }
}

/// Reads the metric sample starting at `pos`.
#[verifier::loop_isolation(false)]
fn parse_metric(data: &Vec<u8>, pos: usize) -> (r: Result<(Metric, usize), DecodeError>)
    requires
        pos <= data@.len(),
    ensures
        match r {
            Ok((m, end)) => spec_parse_metric(data@, pos as int) == Some((m@, end as int))
                && pos < end <= data@.len(),
            Err(_) => spec_parse_metric(data@, pos as int) is None,
        },
{
    if data.len() - pos < 1 {
        return Err(DecodeError::Malformed);
    }
    let tag = data[pos];
    let metric_type = if tag == 0 {
        MetricType::Counter
    } else if tag == 1 {
        MetricType::Gauge
    } else if tag == 2 {
        MetricType::Histogram
    } else {
        return Err(DecodeError::Malformed);
    };
    let (name, p1) = match parse_str(data, pos + 1) {
        Ok(x) => x,
        Err(e) => {
            return Err(e);
        },
    };
    if data.len() - p1 < 2 {
        return Err(DecodeError::Malformed);
    }
    let lc = u16_from_le_bytes(slice_subrange(data.as_slice(), p1, p1 + 2));
    let ghost lcount = lc as nat;
    let ghost lstart = (p1 + 2) as int;
    let mut labels: Vec<(String, String)> = Vec::new();
    let mut j: u16 = 0;
    let mut p: usize = p1 + 2;
    proof {
        let r0 = spec_parse_labels(data@, lstart, lcount);
        match r0 {
            None => {},
            Some((rest, e)) => {
                assert(Seq::<(Seq<char>, Seq<char>)>::empty() + rest =~= rest);
            },
        }
        assert(labels.deep_view() =~= Seq::<(Seq<char>, Seq<char>)>::empty());
    }
    while j < lc
        invariant
            j <= lc,
            p <= data@.len(),
            lcount == lc as nat,
            lstart <= p as int,
            spec_parse_labels(data@, lstart, lcount) == labels_cont(
                labels.deep_view(),
                spec_parse_labels(data@, p as int, (lcount - j as nat) as nat),
            ),
            labels@.len() == j as nat,
        decreases lc - j,
    {
        let ghost labels_before = labels.deep_view();
        let ghost p_before = p as int;
        let ghost remaining = (lcount - j as nat) as nat;
        let (lk, pk) = match parse_str(data, p) {
            Ok(x) => x,
            Err(_) => {
                proof {
                    assert(spec_parse_labels(data@, p as int, remaining) is None);
                    assert(spec_parse_labels(data@, lstart, lcount) is None);
                    assert(spec_parse_metric(data@, pos as int) is None);
                }
                return Err(DecodeError::Malformed);
            },
        };
        let (lv, pv) = match parse_str(data, pk) {
            Ok(x) => x,
            Err(_) => {
                proof {
                    assert(spec_parse_labels(data@, p as int, remaining) is None);
                    assert(spec_parse_labels(data@, lstart, lcount) is None);
                    assert(spec_parse_metric(data@, pos as int) is None);
                }
                return Err(DecodeError::Malformed);
            },
        };
        labels.push((lk, lv));
        p = pv;
        j = j + 1;
        proof {
            assert(labels.deep_view() =~= labels_before.push((lk@, lv@)));
            let r_rest = spec_parse_labels(data@, p as int, (lcount - j as nat) as nat);
            match r_rest {
                None => {},
                Some((rest, e)) => {
                    assert(labels_before + (seq![(lk@, lv@)] + rest) =~= labels_before.push(
                        (lk@, lv@),
                    ) + rest);
                },
            }
        }
    }
    proof {
        assert(spec_parse_labels(data@, p as int, 0) == Some(
            (Seq::<(Seq<char>, Seq<char>)>::empty(), p as int),
        ));
        assert(labels.deep_view() + Seq::<(Seq<char>, Seq<char>)>::empty() =~= labels.deep_view());
    }
    if data.len() - p < 16 {
        return Err(DecodeError::Malformed);
    }
    let raw = u128_from_le_bytes(slice_subrange(data.as_slice(), p, p + 16));
    let value_milli = #[verifier::truncate] (raw as i128);
    let m = Metric { key: MetricKey { metric_type, name, labels }, value_milli };
    proof {
        assert(spec_parse_metric(data@, pos as int) == Some((m@, (p + 16) as int)));
    }
    Ok((m, p + 16))
}

/// Decodes a pre-computed metric batch; rejects the payload exactly when
/// it does not follow the metric batch grammar.
#[verifier::loop_isolation(false)]
pub fn decode_metrics(data: &Vec<u8>) -> (r: Result<Vec<Metric>, DecodeError>)
    ensures
        match r {
            Ok(ms) => spec_decode_metrics(data@) == Some(ms.deep_view()),
            Err(_) => spec_decode_metrics(data@) is None,
        },
{
    if data.len() < 4 {
        return Err(DecodeError::Malformed);
    }
    let count = u32_from_le_bytes(slice_subrange(data.as_slice(), 0, 4));
    let ghost c = count as nat;
    let mut out: Vec<Metric> = Vec::new();
    let mut k: u32 = 0;
    let mut pos: usize = 4;
    proof {
        let r0 = spec_parse_metrics(data@, 4, c);
        match r0 {
            None => {},
            Some((rest, e)) => {
                assert(Seq::<MetricModel>::empty() + rest =~= rest);
            },
        }
        assert(out.deep_view() =~= Seq::<MetricModel>::empty());
    }
    while k < count
        invariant
            k <= count,
            4 <= pos <= data@.len(),
            c == count as nat,
            spec_parse_metrics(data@, 4, c) == metrics_cont(
                out.deep_view(),
                spec_parse_metrics(data@, pos as int, (c - k as nat) as nat),
            ),
            out@.len() == k as nat,
        decreases count - k,
    {
        let ghost out_before = out.deep_view();
        let ghost p_before = pos as int;
        let ghost remaining = (c - k as nat) as nat;
        let (m, end) = match parse_metric(data, pos) {
            Ok(x) => x,
            Err(_) => {
                proof {
                    assert(spec_parse_metrics(data@, pos as int, remaining) is None);
                    assert(spec_parse_metrics(data@, 4, c) is None);
                    assert(spec_decode_metrics(data@) is None);
                }
                return Err(DecodeError::Malformed);
            },
        };
        out.push(m);
        pos = end;
        k = k + 1;
        proof {
            assert(out.deep_view() =~= out_before.push(m@));
            let r_rest = spec_parse_metrics(data@, pos as int, (c - k as nat) as nat);
            match r_rest {
                None => {},
                Some((rest, e)) => {
                    assert(out_before + (seq![m@] + rest) =~= out_before.push(m@) + rest);
                },
            }
        }
    }
    proof {
        assert(spec_parse_metrics(data@, pos as int, 0) == Some(
            (Seq::<MetricModel>::empty(), pos as int),
        ));
        assert(out.deep_view() + Seq::<MetricModel>::empty() =~= out.deep_view());
    }
    if pos != data.len() {
        return Err(DecodeError::Malformed);
    }
    Ok(out)
}

} // verus!
