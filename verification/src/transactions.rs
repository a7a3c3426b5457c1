//! The transaction provenance pipeline: per-node translators that turn
//! typed bus messages into trace events, and the single-writer tracker
//! that accumulates, per transaction hash, who originated it and who
//! relayed it to whom.  When a transaction's propagation is fully
//! observed — an originator is known and every other node has reported a
//! sender — the tracker hands back an immutable trace for persistence and
//! drops the record; that is the sole removal path.

use vstd::prelude::*;
use vstd::bytes::{spec_u16_from_le_bytes, spec_u32_from_le_bytes, u16_from_le_bytes,
    u32_from_le_bytes};
use vstd::slice::{slice_subrange, slice_to_vec};
use vstd::string::StringSliceAdditionalSpecFns;
use crate::codec::{ascii_to_string, DecodeError};

verus! {

/// One observed propagation fact for a transaction, keyed by its hash.
pub enum Trace {
    /// `Original(tx_hash, a)`: node `a` first originated `tx_hash`.
    Original(Vec<u8>, u32),
    /// `ReceiveFrom(tx_hash, a, b)`: node `a` received `tx_hash` from
    /// node `b`.
    ReceiveFrom(Vec<u8>, u32, u32),
}

/// Mathematical model of a `Trace`.
pub enum TraceModel {
    Original(Seq<u8>, u32),
    ReceiveFrom(Seq<u8>, u32, u32),
}

impl View for Trace {
    type V = TraceModel;

    open spec fn view(&self) -> TraceModel {
        match self {
            Trace::Original(h, n) => TraceModel::Original(h@, *n),
            Trace::ReceiveFrom(h, to, from) => TraceModel::ReceiveFrom(h@, *to, *from),
        }
    }
}

impl DeepView for Trace {
    type V = TraceModel;

    open spec fn deep_view(&self) -> TraceModel {
        self.view()
    }
}

/// The hash a trace event is about.
pub open spec fn spec_tx_hash(t: TraceModel) -> Seq<u8> {
    match t {
        TraceModel::Original(h, _) => h,
        TraceModel::ReceiveFrom(h, _, _) => h,
    }
}

impl Trace {
    /// The hash this event is about.
    pub fn tx_hash(&self) -> (h: Vec<u8>)
        ensures
            h@ == spec_tx_hash(self@),
    {
        match self {
            Trace::Original(hash, _) => clone_bytes(hash),
            Trace::ReceiveFrom(hash, _, _) => clone_bytes(hash),
        }
    }
}

/// One recorded relay: `to_node` received the transaction from
/// `from_node`.
#[derive(Clone, Copy, PartialEq, Eq, Structural, Debug)]
pub struct Edge {
    pub from_node: u32,
    pub to_node: u32,
}

/// A completed propagation trace, ready for persistence: the hash in hex,
/// the originating node, and every recorded relay in order of
/// observation.
pub struct TxTrace {
    pub hash: String,
    pub original: u32,
    pub edges: Vec<Edge>,
}

/// Mathematical model of a `TxTrace`.
#[verifier::ext_equal]
pub struct TxTraceModel {
    pub hash: Seq<char>,
    pub original: u32,
    pub edges: Seq<Edge>,
}

impl View for TxTrace {
    type V = TxTraceModel;

    open spec fn view(&self) -> TxTraceModel {
        TxTraceModel { hash: self.hash@, original: self.original, edges: self.edges@ }
    }
}

/// The accumulating per-transaction record: the originator if reported,
/// and at most one recorded sender per receiver.
pub struct ProvRecord {
    pub hash: Vec<u8>,
    pub original: Option<u32>,
    pub edges: Vec<Edge>,
    /// When the record was first created, on the caller-supplied clock;
    /// the eviction sweep drops records past their age.
    pub created_at: u64,
}

/// Mathematical model of a `ProvRecord`.
#[verifier::ext_equal]
pub struct ProvRecordModel {
    pub hash: Seq<u8>,
    pub original: Option<u32>,
    pub edges: Seq<Edge>,
    pub created_at: u64,
}

impl View for ProvRecord {
    type V = ProvRecordModel;

    open spec fn view(&self) -> ProvRecordModel {
        ProvRecordModel {
            hash: self.hash@,
            original: self.original,
            edges: self.edges@,
            created_at: self.created_at,
        }
    }
}

impl DeepView for ProvRecord {
    type V = ProvRecordModel;

    open spec fn deep_view(&self) -> ProvRecordModel {
        self.view()
    }
}

/// What one `handle` call reports: the event was recorded (or silently
/// ignored), it was a protocol violation (a second originator), or it
/// completed the transaction's trace, which is handed back for
/// persistence.
pub enum HandleOutcome {
    Recorded,
    DuplicateOriginal,
    Completed(TxTrace),
}

/// Mathematical model of a `HandleOutcome`.
#[verifier::ext_equal]
pub enum HandleOutcomeModel {
    Recorded,
    DuplicateOriginal,
    Completed(TxTraceModel),
}

impl View for HandleOutcome {
    type V = HandleOutcomeModel;

    open spec fn view(&self) -> HandleOutcomeModel {
        match self {
            HandleOutcome::Recorded => HandleOutcomeModel::Recorded,
            HandleOutcome::DuplicateOriginal => HandleOutcomeModel::DuplicateOriginal,
            HandleOutcome::Completed(t) => HandleOutcomeModel::Completed(t@),
        }
    }
}

// ---------------------------------------------------------------------
// Hex rendering of a hash.
// ---------------------------------------------------------------------

/// The lowercase hex digit for one value below sixteen.
pub open spec fn spec_hex_digit(n: int) -> char {
    if n == 0 { '0' } else if n == 1 { '1' } else if n == 2 { '2' } else if n == 3 { '3' }
    else if n == 4 { '4' } else if n == 5 { '5' } else if n == 6 { '6' } else if n == 7 { '7' }
    else if n == 8 { '8' } else if n == 9 { '9' } else if n == 10 { 'a' } else if n == 11 { 'b' }
    else if n == 12 { 'c' } else if n == 13 { 'd' } else if n == 14 { 'e' } else { 'f' }
}

/// The `0x`-prefixed lowercase hex rendering of a byte string.
pub open spec fn spec_hex_of(bytes: Seq<u8>) -> Seq<char> {
    seq!['0', 'x'] + Seq::new(
        2 * bytes.len(),
        |i: int| if i % 2 == 0 {
            spec_hex_digit(bytes[i / 2] as int / 16)
        } else {
            spec_hex_digit(bytes[i / 2] as int % 16)
        },
    )
}

/// The ASCII code of the lowercase hex digit for one value below
/// sixteen.
fn hex_digit_ascii(n: u8) -> (c: u8)
    requires
        n < 16,
    ensures
        c < 128,
        c as char == spec_hex_digit(n as int),
{
    if n < 10 {
        48 + n
    } else {
        87 + n
    }
}

/// Renders a hash as a `0x`-prefixed lowercase hex string.
#[verifier::loop_isolation(false)]
pub fn hex_string(bytes: &Vec<u8>) -> (out: String)
    ensures
        out@ == spec_hex_of(bytes@),
{
    let mut ascii: Vec<u8> = Vec::new();
    ascii.push(48);
    ascii.push(120);
    let mut i: usize = 0;
    while i < bytes.len()
        invariant
            i <= bytes.len(),
            ascii@.len() == 2 + 2 * i,
            forall|j: int| 0 <= j < ascii@.len() ==> ascii@[j] < 128,
            forall|j: int| 0 <= j < ascii@.len() ==> ascii@[j] as char == spec_hex_of(bytes@)[j],
        decreases bytes.len() - i,
    {
        let b = bytes[i];
        let hi = hex_digit_ascii(b / 16);
        let lo = hex_digit_ascii(b % 16);
        ascii.push(hi);
        ascii.push(lo);
        i = i + 1;
    }
    let out = ascii_to_string(ascii);
    proof {
        assert(out@ =~= spec_hex_of(bytes@));
    }
    out
}

/// A verified byte-for-byte copy of a hash.
#[verifier::loop_isolation(false)]
fn clone_bytes(v: &Vec<u8>) -> (out: Vec<u8>)
    ensures
        out@ == v@,
{
    let mut out: Vec<u8> = Vec::new();
    let mut i: usize = 0;
    while i < v.len()
        invariant
            i <= v.len(),
            out@ =~= v@.subrange(0, i as int),
        decreases v.len() - i,
    {
        out.push(v[i]);
        i = i + 1;
    }
    proof {
        assert(v@.subrange(0, v@.len() as int) =~= v@);
    }
    out
}


/// A verified element-for-element copy of a record's edges.
#[verifier::loop_isolation(false)]
fn clone_edges(v: &Vec<Edge>) -> (out: Vec<Edge>)
    ensures
        out@ == v@,
{
    let mut out: Vec<Edge> = Vec::new();
    let mut i: usize = 0;
    while i < v.len()
        invariant
            i <= v.len(),
            out@ =~= v@.subrange(0, i as int),
        decreases v.len() - i,
    {
        out.push(v[i]);
        i = i + 1;
    }
    proof {
        assert(v@.subrange(0, v@.len() as int) =~= v@);
    }
    out
}

/// Whether two hashes hold the same bytes.
#[verifier::loop_isolation(false)]
fn bytes_eq(a: &Vec<u8>, b: &Vec<u8>) -> (r: bool)
    ensures
        r == (a@ == b@),
{
    if a.len() != b.len() {
        return false;
    }
    let mut i: usize = 0;
    while i < a.len()
        invariant
            i <= a.len(),
            a@.len() == b@.len(),
            forall|j: int| 0 <= j < i ==> a@[j] == b@[j],
        decreases a.len() - i,
    {
        if a[i] != b[i] {
            return false;
        }
        i = i + 1;
    }
    proof {
        assert(a@ =~= b@);
    }
    true
}

// ---------------------------------------------------------------------
// The tracker's mathematical model.
// ---------------------------------------------------------------------

/// The first record for a hash, if any.
pub open spec fn spec_lookup(rs: Seq<ProvRecordModel>, h: Seq<u8>) -> Option<ProvRecordModel>
    decreases rs.len(),
{
    if rs.len() == 0 {
        None
    } else if rs[0].hash == h {
        Some(rs[0])
    } else {
        spec_lookup(rs.subrange(1, rs.len() as int), h)
    }
}

/// The records with the first record for a hash taken out.
pub open spec fn spec_remove_record(rs: Seq<ProvRecordModel>, h: Seq<u8>) -> Seq<ProvRecordModel>
    decreases rs.len(),
{
    if rs.len() == 0 {
        rs
    } else if rs[0].hash == h {
        rs.subrange(1, rs.len() as int)
    } else {
        seq![rs[0]] + spec_remove_record(rs.subrange(1, rs.len() as int), h)
    }
}

/// The records with the first record for a hash replaced.
pub open spec fn spec_update_record(
    rs: Seq<ProvRecordModel>,
    h: Seq<u8>,
    r: ProvRecordModel,
) -> Seq<ProvRecordModel>
    decreases rs.len(),
{
    if rs.len() == 0 {
        rs
    } else if rs[0].hash == h {
        seq![r] + rs.subrange(1, rs.len() as int)
    } else {
        seq![rs[0]] + spec_update_record(rs.subrange(1, rs.len() as int), h, r)
    }
}

/// The sender already recorded for one receiver, if any (first write
/// wins).
pub open spec fn spec_edge_sender(edges: Seq<Edge>, to: u32) -> Option<u32>
    decreases edges.len(),
{
    if edges.len() == 0 {
        None
    } else if edges[0].to_node == to {
        Some(edges[0].from_node)
    } else {
        spec_edge_sender(edges.subrange(1, edges.len() as int), to)
    }
}

/// The completion predicate: the originator is known and, counting it,
/// every node of the cluster has been accounted for.
pub open spec fn spec_complete(r: ProvRecordModel, node_num: int) -> bool {
    r.original is Some && r.edges.len() + 1 == node_num
}

/// The persistence-ready trace of a record that completed.
pub open spec fn spec_trace_of(r: ProvRecordModel) -> TxTraceModel
    recommends
        r.original is Some,
{
    TxTraceModel { hash: spec_hex_of(r.hash), original: r.original->0, edges: r.edges }
}

/// The records and outcome after one trace event, starting from a record
/// for the event's hash that did not exist before.
pub open spec fn spec_settle_new(
    rs: Seq<ProvRecordModel>,
    node_num: int,
    r: ProvRecordModel,
) -> (Seq<ProvRecordModel>, HandleOutcomeModel) {
    if spec_complete(r, node_num) {
        (rs, HandleOutcomeModel::Completed(spec_trace_of(r)))
    } else {
        (rs.push(r), HandleOutcomeModel::Recorded)
    }
}

/// The records and outcome after one trace event, starting from the
/// updated value of a record that already existed.
pub open spec fn spec_settle(
    rs: Seq<ProvRecordModel>,
    node_num: int,
    h: Seq<u8>,
    r: ProvRecordModel,
) -> (Seq<ProvRecordModel>, HandleOutcomeModel) {
    if spec_complete(r, node_num) {
        (spec_remove_record(rs, h), HandleOutcomeModel::Completed(spec_trace_of(r)))
    } else {
        (spec_update_record(rs, h, r), HandleOutcomeModel::Recorded)
    }
}

/// What one trace event does to the tracker: the records afterwards and
/// the reported outcome.
pub open spec fn spec_track_step(
    rs: Seq<ProvRecordModel>,
    node_num: int,
    now: u64,
    t: TraceModel,
) -> (Seq<ProvRecordModel>, HandleOutcomeModel) {
    match t {
        TraceModel::Original(h, n) => match spec_lookup(rs, h) {
            Some(r) => if r.original is Some {
                (rs, HandleOutcomeModel::DuplicateOriginal)
            } else {
                spec_settle(rs, node_num, h, ProvRecordModel { original: Some(n), ..r })
            },
            None => spec_settle_new(
                rs,
                node_num,
                ProvRecordModel {
                    hash: h,
                    original: Some(n),
                    edges: Seq::empty(),
                    created_at: now,
                },
            ),
        },
        TraceModel::ReceiveFrom(h, to, from) => match spec_lookup(rs, h) {
            Some(r) => if spec_edge_sender(r.edges, to) is Some {
                (rs, HandleOutcomeModel::Recorded)
            } else {
                spec_settle(
                    rs,
                    node_num,
                    h,
                    ProvRecordModel {
                        edges: r.edges.push(Edge { from_node: from, to_node: to }),
                        ..r
                    },
                )
            },
            None => spec_settle_new(
                rs,
                node_num,
                ProvRecordModel {
                    hash: h,
                    original: None,
                    edges: seq![Edge { from_node: from, to_node: to }],
                    created_at: now,
                },
            ),
        },
    }
}

/// Each receiver appears at most once among a record's edges.
pub open spec fn spec_wf_edges(edges: Seq<Edge>) -> bool {
    forall|i: int, j: int| 0 <= i < j < edges.len() ==> edges[i].to_node != edges[j].to_node
}

/// The tracker's invariant over its records: one record per hash, each
/// with first-write-wins edges, and none that already completed (a
/// completed record is removed at once).
pub open spec fn spec_wf_records(rs: Seq<ProvRecordModel>, node_num: int) -> bool {
    &&& forall|i: int, j: int| 0 <= i < j < rs.len() ==> rs[i].hash != rs[j].hash
    &&& forall|i: int| 0 <= i < rs.len() ==> spec_wf_edges(#[trigger] rs[i].edges)
    &&& forall|i: int| 0 <= i < rs.len() ==> !spec_complete(#[trigger] rs[i], node_num)
}

// ---------------------------------------------------------------------
// Lemmas linking the model to positions in the record list.
// ---------------------------------------------------------------------

/// A hash under no record is not found.
proof fn lemma_lookup_none(rs: Seq<ProvRecordModel>, h: Seq<u8>)
    requires
        forall|j: int| 0 <= j < rs.len() ==> rs[j].hash != h,
    ensures
        spec_lookup(rs, h) is None,
    decreases rs.len(),
{
    if rs.len() != 0 {
        lemma_lookup_none(rs.subrange(1, rs.len() as int), h);
    }
}

/// Looking up the hash of the first record holding it finds that record,
/// and taking it out or replacing it acts at exactly that position.
proof fn lemma_lookup_at(rs: Seq<ProvRecordModel>, h: Seq<u8>, i: int, r: ProvRecordModel)
    requires
        0 <= i < rs.len(),
        rs[i].hash == h,
        forall|j: int| 0 <= j < i ==> rs[j].hash != h,
    ensures
        spec_lookup(rs, h) == Some(rs[i]),
        spec_remove_record(rs, h) =~= rs.remove(i),
        spec_update_record(rs, h, r) =~= rs.update(i, r),
    decreases i,
{
    if i == 0 {
        assert(spec_remove_record(rs, h) =~= rs.remove(0));
        assert(seq![r] + rs.subrange(1, rs.len() as int) =~= rs.update(0, r));
    } else {
        let tail = rs.subrange(1, rs.len() as int);
        lemma_lookup_at(tail, h, i - 1, r);
        assert(seq![rs[0]] + tail.remove(i - 1) =~= rs.remove(i));
        assert(seq![rs[0]] + tail.update(i - 1, r) =~= rs.update(i, r));
    }
}

/// A sender is recorded for a receiver exactly when some edge names the
/// receiver.
proof fn lemma_edge_sender_none(edges: Seq<Edge>, to: u32)
    requires
        forall|j: int| 0 <= j < edges.len() ==> edges[j].to_node != to,
    ensures
        spec_edge_sender(edges, to) is None,
    decreases edges.len(),
{
    if edges.len() != 0 {
        lemma_edge_sender_none(edges.subrange(1, edges.len() as int), to);
    }
}

/// The recorded sender for a receiver named by some edge.
proof fn lemma_edge_sender_at(edges: Seq<Edge>, to: u32, i: int)
    requires
        0 <= i < edges.len(),
        edges[i].to_node == to,
        forall|j: int| 0 <= j < i ==> edges[j].to_node != to,
    ensures
        spec_edge_sender(edges, to) == Some(edges[i].from_node),
    decreases i,
{
    if i > 0 {
        lemma_edge_sender_at(edges.subrange(1, edges.len() as int), to, i - 1);
    }
}

/// Taking one record out keeps the invariant, and no remaining record
/// holds the removed record's hash.
proof fn lemma_remove_at_wf(rs: Seq<ProvRecordModel>, node_num: int, i: int)
    requires
        spec_wf_records(rs, node_num),
        0 <= i < rs.len(),
    ensures
        spec_wf_records(rs.remove(i), node_num),
        forall|j: int| 0 <= j < rs.remove(i).len() ==> #[trigger] rs.remove(i)[j].hash
            != rs[i].hash,
{
    rs.remove_ensures(i);
    assert forall|j: int| 0 <= j < rs.remove(i).len() implies #[trigger] rs.remove(i)[j].hash
        != rs[i].hash by {
        if j < i {
            assert(rs.remove(i)[j] == rs[j]);
        } else {
            assert(rs.remove(i)[j] == rs[j + 1]);
        }
    }
    assert forall|a: int, b: int| 0 <= a < b < rs.remove(i).len() implies rs.remove(i)[a].hash
        != rs.remove(i)[b].hash by {
        let a0 = if a < i { a } else { a + 1 };
        let b0 = if b < i { b } else { b + 1 };
        assert(rs.remove(i)[a] == rs[a0]);
        assert(rs.remove(i)[b] == rs[b0]);
    }
    assert forall|j: int| 0 <= j < rs.remove(i).len() implies spec_wf_edges(
        #[trigger] rs.remove(i)[j].edges,
    ) && !spec_complete(rs.remove(i)[j], node_num) by {
        if j < i {
            assert(rs.remove(i)[j] == rs[j]);
        } else {
            assert(rs.remove(i)[j] == rs[j + 1]);
        }
    }
}

/// Putting a fresh, incomplete record in keeps the invariant.
proof fn lemma_insert_wf(rs: Seq<ProvRecordModel>, node_num: int, i: int, r: ProvRecordModel)
    requires
        spec_wf_records(rs, node_num),
        0 <= i <= rs.len(),
        forall|j: int| 0 <= j < rs.len() ==> rs[j].hash != r.hash,
        spec_wf_edges(r.edges),
        !spec_complete(r, node_num),
    ensures
        spec_wf_records(rs.insert(i, r), node_num),
{
    let rs2 = rs.insert(i, r);
    rs.insert_ensures(i, r);
    assert forall|a: int, b: int| 0 <= a < b < rs2.len() implies rs2[a].hash != rs2[b].hash by {
        if a < i {
            assert(rs2[a] == rs[a]);
        } else if a == i {
            assert(rs2[a] == r);
        } else {
            assert(rs2[a] == rs[a - 1]);
        }
        if b < i {
            assert(rs2[b] == rs[b]);
        } else if b == i {
            assert(rs2[b] == r);
        } else {
            assert(rs2[b] == rs[b - 1]);
        }
    }
    assert forall|j: int| 0 <= j < rs2.len() implies spec_wf_edges(#[trigger] rs2[j].edges)
        && !spec_complete(rs2[j], node_num) by {
        if j < i {
            assert(rs2[j] == rs[j]);
        } else if j == i {
            assert(rs2[j] == r);
        } else {
            assert(rs2[j] == rs[j - 1]);
        }
    }
}


/// Whether a record has outlived the configured age on the caller's
/// clock.
pub open spec fn spec_expired(r: ProvRecordModel, now: u64, max_age: u64) -> bool {
    r.created_at + max_age < now
}

/// The records with everything past the configured age dropped, in the
/// order they stood.
pub open spec fn spec_sweep(
    rs: Seq<ProvRecordModel>,
    now: u64,
    max_age: u64,
) -> Seq<ProvRecordModel>
    decreases rs.len(),
{
    if rs.len() == 0 {
        rs
    } else {
        let rest = spec_sweep(rs.subrange(1, rs.len() as int), now, max_age);
        if spec_expired(rs[0], now, max_age) {
            rest
        } else {
            seq![rs[0]] + rest
        }
    }
}

/// Law: eviction keeps the invariant — every surviving record is one of
/// the old records, still unique per hash, first-write-wins and
/// incomplete.
pub proof fn lemma_sweep_wf(rs: Seq<ProvRecordModel>, node_num: int, now: u64, max_age: u64)
    requires
        spec_wf_records(rs, node_num),
    ensures
        spec_wf_records(spec_sweep(rs, now, max_age), node_num),
        forall|i: int|
            0 <= i < spec_sweep(rs, now, max_age).len() ==> exists|j: int|
                0 <= j < rs.len() && #[trigger] spec_sweep(rs, now, max_age)[i] == rs[j],
    decreases rs.len(),
{
    if rs.len() != 0 {
        let tail = rs.subrange(1, rs.len() as int);
        lemma_remove_at_wf(rs, node_num, 0);
        assert(rs.remove(0) =~= tail);
        lemma_sweep_wf(tail, node_num, now, max_age);
        let rest = spec_sweep(tail, now, max_age);
        let swept = spec_sweep(rs, now, max_age);
        if spec_expired(rs[0], now, max_age) {
            assert forall|i: int| 0 <= i < swept.len() implies exists|j: int|
                0 <= j < rs.len() && #[trigger] swept[i] == rs[j] by {
                let j = choose|j: int| 0 <= j < tail.len() && #[trigger] rest[i] == tail[j];
                assert(swept[i] == rs[j + 1]);
            }
        } else {
            assert(swept == seq![rs[0]] + rest);
            assert forall|i: int| 0 <= i < swept.len() implies exists|j: int|
                0 <= j < rs.len() && #[trigger] swept[i] == rs[j] by {
                if i == 0 {
                    assert(swept[0] == rs[0]);
                } else {
                    let j = choose|j: int|
                        0 <= j < tail.len() && #[trigger] rest[i - 1] == tail[j];
                    assert(swept[i] == rs[j + 1]);
                }
            }
            assert forall|a: int, b: int| 0 <= a < b < swept.len() implies swept[a].hash
                != swept[b].hash by {
                if a == 0 {
                    let j = choose|j: int|
                        0 <= j < tail.len() && #[trigger] rest[b - 1] == tail[j];
                    assert(swept[b] == rs[j + 1]);
                    assert(rs[0].hash != rs[j + 1].hash);
                }
            }
        }
    }
}

// ---------------------------------------------------------------------
// The tracker.
// ---------------------------------------------------------------------

/// The single-writer transaction provenance tracker: one record per
/// in-flight transaction hash, and the configured cluster size.
pub struct TransactionsTrack {
    records: Vec<ProvRecord>,
    node_num: usize,
    now: u64,
}

impl TransactionsTrack {
    /// The in-flight records, in order of first observation.
    pub closed spec fn spec_records(&self) -> Seq<ProvRecordModel> {
        self.records.deep_view()
    }

    /// The configured cluster size.
    pub closed spec fn spec_node_num(&self) -> int {
        self.node_num as int
    }

    /// The last time the caller reported, on its own clock.
    pub closed spec fn spec_now(&self) -> u64 {
        self.now
    }

    /// The tracker's invariant.
    pub open spec fn wf(&self) -> bool {
        spec_wf_records(self.spec_records(), self.spec_node_num())
    }

    /// A fresh tracker for a cluster of `node_num` nodes, with no
    /// in-flight records.
    pub fn new(node_num: usize) -> (t: TransactionsTrack)
        ensures
            t.wf(),
            t.spec_records() =~= Seq::<ProvRecordModel>::empty(),
            t.spec_node_num() == node_num,
            t.spec_now() == 0,
    {
        let t = TransactionsTrack { records: Vec::new(), node_num, now: 0 };
        proof {
            assert(t.spec_records() =~= Seq::<ProvRecordModel>::empty());
        }
        t
    }

    /// Reports the caller's clock; new records are stamped with it and
    /// the eviction sweep measures ages against it.
    pub fn set_time(&mut self, now: u64)
        ensures
            final(self).spec_records() == old(self).spec_records(),
            final(self).spec_node_num() == old(self).spec_node_num(),
            final(self).spec_now() == now,
            old(self).wf() ==> final(self).wf(),
    {
        self.now = now;
    }


    /// The eviction sweep: drops every record older than `max_age` on
    /// the caller's clock and reports how many were dropped.  This
    /// bounds the tracker's growth when a transaction's propagation is
    /// never fully observed.
    #[verifier::loop_isolation(false)]
    pub fn sweep(&mut self, max_age: u64) -> (evicted: usize)
        requires
            old(self).wf(),
        ensures
            final(self).wf(),
            final(self).spec_node_num() == old(self).spec_node_num(),
            final(self).spec_now() == old(self).spec_now(),
            final(self).spec_records() == spec_sweep(
                old(self).spec_records(),
                old(self).spec_now(),
                max_age,
            ),
            evicted == old(self).spec_records().len() - final(self).spec_records().len(),
    {
        let ghost rs0 = self.spec_records();
        let ghost now = self.spec_now();
        let mut kept: Vec<ProvRecord> = Vec::new();
        let mut i: usize = 0;
        proof {
            let r0 = spec_sweep(rs0, now, max_age);
            assert(Seq::<ProvRecordModel>::empty() + r0 =~= r0);
            assert(kept.deep_view() =~= Seq::<ProvRecordModel>::empty());
            assert(rs0.subrange(0, rs0.len() as int) =~= rs0);
        }
        while i < self.records.len()
            invariant
                i <= self.records.len(),
                kept@.len() <= i,
                spec_sweep(rs0, now, max_age) == kept.deep_view() + spec_sweep(
                    rs0.subrange(i as int, rs0.len() as int),
                    now,
                    max_age,
                ),
            decreases self.records.len() - i,
        {
            let ghost kept_before = kept.deep_view();
            let ghost remaining = rs0.subrange(i as int, rs0.len() as int);
            let record = &self.records[i];
            let expired = max_age < u64::MAX - record.created_at && record.created_at + max_age
                < self.now;
            if !expired {
                let survivor = ProvRecord {
                    hash: clone_bytes(&record.hash),
                    original: record.original,
                    edges: clone_edges(&record.edges),
                    created_at: record.created_at,
                };
                proof {
                    assert(survivor@ =~= rs0[i as int]);
                }
                kept.push(survivor);
            }
            i = i + 1;
            proof {
                assert(remaining[0] == rs0[i - 1]);
                assert(remaining.subrange(1, remaining.len() as int) =~= rs0.subrange(
                    i as int,
                    rs0.len() as int,
                ));
                let rest = spec_sweep(rs0.subrange(i as int, rs0.len() as int), now, max_age);
                if spec_expired(rs0[i - 1], now, max_age) {
                } else {
                    assert(kept.deep_view() =~= kept_before.push(rs0[i - 1]));
                    assert(kept_before + (seq![rs0[i - 1]] + rest) =~= kept_before.push(
                        rs0[i - 1],
                    ) + rest);
                }
            }
        }
        proof {
            assert(rs0.subrange(rs0.len() as int, rs0.len() as int)
                =~= Seq::<ProvRecordModel>::empty());
            assert(kept.deep_view() + Seq::<ProvRecordModel>::empty() =~= kept.deep_view());
            lemma_sweep_wf(rs0, self.spec_node_num(), now, max_age);
        }
        let evicted = self.records.len() - kept.len();
        self.records = kept;
        evicted
    }

    /// The position of the record for a hash, if one exists.
    #[verifier::loop_isolation(false)]
    fn find(&self, h: &Vec<u8>) -> (r: Option<usize>)
        ensures
            match r {
                Some(i) => i < self.records@.len() && self.spec_records()[i as int].hash == h@
                    && spec_lookup(self.spec_records(), h@) == Some(
                    self.spec_records()[i as int],
                ) && (forall|j: int| 0 <= j < i ==> self.spec_records()[j].hash != h@),
                None => spec_lookup(self.spec_records(), h@) is None && (forall|j: int|
                    0 <= j < self.spec_records().len() ==> self.spec_records()[j].hash != h@),
            },
    {
        let mut i: usize = 0;
        while i < self.records.len()
            invariant
                i <= self.records.len(),
                forall|j: int| 0 <= j < i ==> self.spec_records()[j].hash != h@,
            decreases self.records.len() - i,
        {
            if bytes_eq(&self.records[i].hash, h) {
                proof {
                    lemma_lookup_at(
                        self.spec_records(),
                        h@,
                        i as int,
                        self.spec_records()[i as int],
                    );
                }
                return Some(i);
            }
            i = i + 1;
        }
        proof {
            lemma_lookup_none(self.spec_records(), h@);
        }
        None
    }

    /// Whether the record's edges already name this receiver.
    #[verifier::loop_isolation(false)]
    fn edge_recorded(edges: &Vec<Edge>, to: u32) -> (r: bool)
        ensures
            r == (spec_edge_sender(edges@, to) is Some),
            !r ==> forall|j: int| 0 <= j < edges@.len() ==> edges@[j].to_node != to,
    {
        let mut i: usize = 0;
        while i < edges.len()
            invariant
                i <= edges.len(),
                forall|j: int| 0 <= j < i ==> edges@[j].to_node != to,
            decreases edges.len() - i,
        {
            if edges[i].to_node == to {
                proof {
                    lemma_edge_sender_at(edges@, to, i as int);
                }
                return true;
            }
            i = i + 1;
        }
        proof {
            lemma_edge_sender_none(edges@, to);
        }
        false
    }

    /// Applies one trace event: records the fact, reports a duplicate
    /// originator as a protocol violation without state change, ignores a
    /// repeated sender for one receiver (first write wins), and on
    /// completion hands back the trace and drops the record.
    pub fn handle(&mut self, trace: Trace) -> (outcome: HandleOutcome)
        requires
            old(self).wf(),
        ensures
            final(self).wf(),
            final(self).spec_node_num() == old(self).spec_node_num(),
            ({
                let sr = spec_track_step(
                    old(self).spec_records(),
                    old(self).spec_node_num(),
                    old(self).spec_now(),
                    trace@,
                );
                final(self).spec_records() == sr.0 && outcome@ == sr.1
            }),
            final(self).spec_now() == old(self).spec_now(),
    {
        let ghost rs0 = self.spec_records();
        let ghost nn = self.spec_node_num();
        match trace {
            Trace::Original(hash, node_id) => {
                match self.find(&hash) {
                    Some(i) => {
                        if self.records[i].original.is_some() {
                            return HandleOutcome::DuplicateOriginal;
                        }
                        proof {
                            lemma_remove_at_wf(rs0, nn, i as int);
                        }
                        let ghost v0 = self.records@;
                        let mut r = self.records.remove(i);
                        proof {
                            v0.remove_ensures(i as int);
                            rs0.remove_ensures(i as int);
                            assert(self.spec_records() =~= rs0.remove(i as int));
                        }
                        r.original = Some(node_id);
                        let ghost r2 = r@;
                        let outcome = self.settle(i, r, Ghost(hash@));
                        proof {
                            lemma_lookup_at(rs0, hash@, i as int, r2);
                            assert(rs0.remove(i as int).insert(i as int, r2) =~= rs0.update(
                                i as int,
                                r2,
                            ));
                        }
                        outcome
                    },
                    None => {
                        let r = ProvRecord {
                            hash,
                            original: Some(node_id),
                            edges: Vec::new(),
                            created_at: self.now,
                        };
                        proof {
                            assert(r@.edges =~= Seq::<Edge>::empty());
                        }
                        self.settle_new(r)
                    },
                }
            },
            Trace::ReceiveFrom(hash, to, from) => {
                match self.find(&hash) {
                    Some(i) => {
                        if Self::edge_recorded(&self.records[i].edges, to) {
                            return HandleOutcome::Recorded;
                        }
                        proof {
                            lemma_remove_at_wf(rs0, nn, i as int);
                        }
                        let ghost v0 = self.records@;
                        let mut r = self.records.remove(i);
                        proof {
                            v0.remove_ensures(i as int);
                            rs0.remove_ensures(i as int);
                            assert(self.spec_records() =~= rs0.remove(i as int));
                        }
                        r.edges.push(Edge { from_node: from, to_node: to });
                        let ghost r2 = r@;
                        let outcome = self.settle(i, r, Ghost(hash@));
                        proof {
                            lemma_lookup_at(rs0, hash@, i as int, r2);
                            assert(rs0.remove(i as int).insert(i as int, r2) =~= rs0.update(
                                i as int,
                                r2,
                            ));
                        }
                        outcome
                    },
                    None => {
                        let mut edges: Vec<Edge> = Vec::new();
                        edges.push(Edge { from_node: from, to_node: to });
                        let r = ProvRecord { hash, original: None, edges, created_at: self.now };
                        proof {
                            assert(r@.edges =~= seq![Edge { from_node: from, to_node: to }]);
                        }
                        self.settle_new(r)
                    },
                }
            },
        }
    }

    /// Settles an updated record that was taken out at position `i`:
    /// puts it back unless it completed, in which case its trace is
    /// handed back instead.
    fn settle(&mut self, i: usize, r: ProvRecord, h: Ghost<Seq<u8>>) -> (outcome: HandleOutcome)
        requires
            i <= old(self).spec_records().len(),
            r@.hash == h@,
            spec_wf_records(old(self).spec_records(), old(self).spec_node_num()),
            forall|j: int| 0 <= j < old(self).spec_records().len() ==> old(
                self,
            ).spec_records()[j].hash != h@,
            spec_wf_edges(r@.edges),
        ensures
            final(self).spec_node_num() == old(self).spec_node_num(),
            final(self).spec_now() == old(self).spec_now(),
            final(self).wf(),
            ({
                let sr = spec_settle_at(
                    old(self).spec_records(),
                    old(self).spec_node_num(),
                    i as int,
                    r@,
                );
                final(self).spec_records() == sr.0 && outcome@ == sr.1
            }),
    {
        let node_num = self.node_num;
        let complete = r.original.is_some() && node_num > 0 && r.edges.len() == node_num - 1;
        if complete {
            let original = match r.original {
                Some(n) => n,
                None => 0,
            };
            let tx = TxTrace { hash: hex_string(&r.hash), original, edges: r.edges };
            proof {
                assert(tx@ =~= spec_trace_of(r@));
            }
            HandleOutcome::Completed(tx)
        } else {
            self.records.insert(i, r);
            proof {
                assert(self.spec_records() =~= old(self).spec_records().insert(i as int, r@));
                lemma_insert_wf(old(self).spec_records(), self.spec_node_num(), i as int, r@);
            }
            HandleOutcome::Recorded
        }
    }

    /// Settles a record for a hash seen for the first time: stores it
    /// unless it completed at once, in which case its trace is handed
    /// back instead.
    fn settle_new(&mut self, r: ProvRecord) -> (outcome: HandleOutcome)
        requires
            old(self).wf(),
            forall|j: int| 0 <= j < old(self).spec_records().len() ==> old(
                self,
            ).spec_records()[j].hash != r@.hash,
            spec_wf_edges(r@.edges),
        ensures
            final(self).spec_node_num() == old(self).spec_node_num(),
            final(self).spec_now() == old(self).spec_now(),
            final(self).wf(),
            ({
                let sr = spec_settle_new(
                    old(self).spec_records(),
                    old(self).spec_node_num(),
                    r@,
                );
                final(self).spec_records() == sr.0 && outcome@ == sr.1
            }),
    {
        let node_num = self.node_num;
        let complete = r.original.is_some() && node_num > 0 && r.edges.len() == node_num - 1;
        if complete {
            let original = match r.original {
                Some(n) => n,
                None => 0,
            };
            let tx = TxTrace { hash: hex_string(&r.hash), original, edges: r.edges };
            proof {
                assert(tx@ =~= spec_trace_of(r@));
            }
            HandleOutcome::Completed(tx)
        } else {
            self.records.push(r);
            proof {
                assert(self.spec_records() =~= old(self).spec_records().push(r@));
                lemma_insert_wf(
                    old(self).spec_records(),
                    self.spec_node_num(),
                    old(self).spec_records().len() as int,
                    r@,
                );
                assert(old(self).spec_records().insert(
                    old(self).spec_records().len() as int,
                    r@,
                ) =~= old(self).spec_records().push(r@));
            }
            HandleOutcome::Recorded
        }
    }
}


// ---------------------------------------------------------------------
// Laws of the tracker's step function.
// ---------------------------------------------------------------------

/// There is a first position holding a hash that is found.
proof fn lemma_lookup_index(rs: Seq<ProvRecordModel>, h: Seq<u8>)
    requires
        spec_lookup(rs, h) is Some,
    ensures
        exists|i: int|
            0 <= i < rs.len() && #[trigger] rs[i].hash == h && spec_lookup(rs, h) == Some(rs[i])
                && (forall|j: int| 0 <= j < i ==> rs[j].hash != h),
    decreases rs.len(),
{
    if rs.len() != 0 {
        if rs[0].hash == h {
            assert(rs[0].hash == h && spec_lookup(rs, h) == Some(rs[0]) && (forall|j: int|
                0 <= j < 0 ==> rs[j].hash != h));
        } else {
            let tail = rs.subrange(1, rs.len() as int);
            lemma_lookup_index(tail, h);
            let i = choose|i: int|
                0 <= i < tail.len() && #[trigger] tail[i].hash == h && spec_lookup(tail, h)
                    == Some(tail[i]) && (forall|j: int| 0 <= j < i ==> tail[j].hash != h);
            assert(rs[i + 1] == tail[i]);
            assert(spec_lookup(rs, h) == spec_lookup(tail, h));
            assert forall|j: int| 0 <= j < i + 1 implies rs[j].hash != h by {
                if j >= 1 {
                    assert(rs[j] == tail[j - 1]);
                }
            }
            assert(rs[i + 1].hash == h && spec_lookup(rs, h) == Some(rs[i + 1]) && (forall|j: int|
                0 <= j < i + 1 ==> rs[j].hash != h));
        }
    }
}

/// Law: first write wins.  Once some sender is recorded for a receiver,
/// a later event naming the same receiver — whatever sender it claims —
/// changes nothing: the records are untouched and the event is merely
/// acknowledged.
pub proof fn lemma_first_write_wins(
    rs: Seq<ProvRecordModel>,
    node_num: int,
    now: u64,
    h: Seq<u8>,
    to: u32,
    from2: u32,
)
    requires
        spec_lookup(rs, h) is Some,
        spec_edge_sender(spec_lookup(rs, h)->0.edges, to) is Some,
    ensures
        spec_track_step(rs, node_num, now, TraceModel::ReceiveFrom(h, to, from2)).0 == rs,
        spec_track_step(rs, node_num, now, TraceModel::ReceiveFrom(h, to, from2)).1
            == HandleOutcomeModel::Recorded,
{
}

/// Law: completion is the sole removal path, and it removes.  When a
/// step reports a completed trace, the record for the event's hash no
/// longer exists afterwards.
pub proof fn lemma_completion_removes(
    rs: Seq<ProvRecordModel>,
    node_num: int,
    now: u64,
    t: TraceModel,
)
    requires
        spec_wf_records(rs, node_num),
        spec_track_step(rs, node_num, now, t).1 is Completed,
    ensures
        spec_lookup(spec_track_step(rs, node_num, now, t).0, spec_tx_hash(t)) is None,
{
    let h = spec_tx_hash(t);
    if spec_lookup(rs, h) is Some {
        lemma_lookup_index(rs, h);
        let i = choose|i: int|
            0 <= i < rs.len() && #[trigger] rs[i].hash == h && spec_lookup(rs, h) == Some(rs[i])
                && (forall|j: int| 0 <= j < i ==> rs[j].hash != h);
        let r = rs[i];
        lemma_lookup_at(rs, h, i, r);
        lemma_remove_at_wf(rs, node_num, i);
        lemma_lookup_none(rs.remove(i), h);
        assert(spec_remove_record(rs, h) =~= rs.remove(i));
    } else {
        assert(spec_track_step(rs, node_num, now, t).0 == rs);
    }
}

/// Law: a step never touches the record of any other transaction.
pub proof fn lemma_step_isolated(
    rs: Seq<ProvRecordModel>,
    node_num: int,
    now: u64,
    t: TraceModel,
    other: Seq<u8>,
)
    requires
        spec_wf_records(rs, node_num),
        other != spec_tx_hash(t),
    ensures
        spec_lookup(spec_track_step(rs, node_num, now, t).0, other) == spec_lookup(rs, other),
{
    let h = spec_tx_hash(t);
    let rs1 = spec_track_step(rs, node_num, now, t).0;
    lemma_lookup_unaffected(rs, h, other);
    if spec_lookup(rs, h) is Some {
        lemma_lookup_index(rs, h);
        let i = choose|i: int|
            0 <= i < rs.len() && #[trigger] rs[i].hash == h && spec_lookup(rs, h) == Some(rs[i])
                && (forall|j: int| 0 <= j < i ==> rs[j].hash != h);
        lemma_lookup_at(rs, h, i, rs[i]);
    }
}

/// Removing, replacing or appending the record of one hash leaves the
/// lookup of every other hash alone.
proof fn lemma_lookup_unaffected(rs: Seq<ProvRecordModel>, h: Seq<u8>, other: Seq<u8>)
    requires
        other != h,
    ensures
        spec_lookup(spec_remove_record(rs, h), other) == spec_lookup(rs, other),
        forall|r: ProvRecordModel| r.hash == h ==> spec_lookup(
            #[trigger] spec_update_record(rs, h, r),
            other,
        ) == spec_lookup(rs, other),
        forall|r: ProvRecordModel| r.hash == h ==> spec_lookup(#[trigger] rs.push(r), other)
            == spec_lookup(rs, other),
    decreases rs.len(),
{
    assert forall|r: ProvRecordModel| r.hash == h implies spec_lookup(
        #[trigger] rs.push(r),
        other,
    ) == spec_lookup(rs, other) by {
        lemma_lookup_push(rs, r, other);
    }
    if rs.len() != 0 {
        let tail = rs.subrange(1, rs.len() as int);
        lemma_lookup_unaffected(tail, h, other);
        if rs[0].hash == h {
            // removal drops the head; update replaces it by a record
            // that still misses `other`
            assert forall|r: ProvRecordModel| r.hash == h implies spec_lookup(
                #[trigger] spec_update_record(rs, h, r),
                other,
            ) == spec_lookup(rs, other) by {
                let u = spec_update_record(rs, h, r);
                assert(u == seq![r] + tail);
                assert(u.subrange(1, u.len() as int) =~= tail);
            }
        } else {
            assert(spec_remove_record(rs, h).len() != 0);
            assert(spec_remove_record(rs, h)[0] == rs[0]);
            assert(spec_remove_record(rs, h).subrange(
                1,
                spec_remove_record(rs, h).len() as int,
            ) =~= spec_remove_record(tail, h));
            assert forall|r: ProvRecordModel| r.hash == h implies spec_lookup(
                #[trigger] spec_update_record(rs, h, r),
                other,
            ) == spec_lookup(rs, other) by {
                let u = spec_update_record(rs, h, r);
                assert(u == seq![rs[0]] + spec_update_record(tail, h, r));
                assert(u[0] == rs[0]);
                assert(u.subrange(1, u.len() as int) =~= spec_update_record(tail, h, r));
            }
        }
    }
}

/// Appending a record for one hash leaves the lookup of every other
/// hash alone.
proof fn lemma_lookup_push(rs: Seq<ProvRecordModel>, r: ProvRecordModel, other: Seq<u8>)
    requires
        r.hash != other,
    ensures
        spec_lookup(rs.push(r), other) == spec_lookup(rs, other),
    decreases rs.len(),
{
    let p = rs.push(r);
    if rs.len() == 0 {
        assert(p[0] == r);
        assert(spec_lookup(p, other) == spec_lookup(p.subrange(1, 1), other));
        assert(p.subrange(1, 1) =~= Seq::<ProvRecordModel>::empty());
    } else {
        let tail = rs.subrange(1, rs.len() as int);
        assert(p[0] == rs[0]);
        assert(p.subrange(1, p.len() as int) =~= tail.push(r));
        lemma_lookup_push(tail, r, other);
        if rs[0].hash == other {
            assert(spec_lookup(p, other) == Some(p[0]));
        } else {
            assert(spec_lookup(p, other) == spec_lookup(p.subrange(1, p.len() as int), other));
            assert(spec_lookup(rs, other) == spec_lookup(tail, other));
        }
    }
}

/// `spec_settle` at a known position: the record goes back in at `i`
/// unless it completed.
pub open spec fn spec_settle_at(
    rs: Seq<ProvRecordModel>,
    node_num: int,
    i: int,
    r: ProvRecordModel,
) -> (Seq<ProvRecordModel>, HandleOutcomeModel) {
    if spec_complete(r, node_num) {
        (rs, HandleOutcomeModel::Completed(spec_trace_of(r)))
    } else {
        (rs.insert(i, r), HandleOutcomeModel::Recorded)
    }
}


// ---------------------------------------------------------------------
// The per-node translators.
// ---------------------------------------------------------------------

/// The body of a transaction-state response, as the JSON document the
/// responding service publishes.
pub struct TxResponse {
    pub hash: Vec<u8>,
    pub status: String,
}

/// A transaction-broadcast request reduced to what the tracing pipeline
/// reads: the hashes of the batched transactions, or of the single
/// transaction.
pub struct RequestMsg {
    pub batch_req: Option<Vec<Vec<u8>>>,
    pub un_tx: Option<Vec<u8>>,
}

/// A transaction-state response reduced to what the tracing pipeline
/// reads: the JSON state body, when the response carries one.
pub struct ResponseMsg {
    pub tx_state: Option<String>,
}

/// The content of one bus message on the tracing topics.
pub enum MsgContent {
    Request(RequestMsg),
    Response(ResponseMsg),
    Other,
}

/// One typed bus message for the tracing pipeline: the node the bus
/// names as its origin, and the decoded content.
pub struct NodeMsg {
    pub origin: u32,
    pub content: MsgContent,
}

/// Mathematical model of a `RequestMsg`.
#[verifier::ext_equal]
pub struct RequestMsgModel {
    pub batch_req: Option<Seq<Seq<u8>>>,
    pub un_tx: Option<Seq<u8>>,
}

/// Mathematical model of a `ResponseMsg`.
#[verifier::ext_equal]
pub struct ResponseMsgModel {
    pub tx_state: Option<Seq<char>>,
}

/// Mathematical model of a `MsgContent`.
#[verifier::ext_equal]
pub enum MsgContentModel {
    Request(RequestMsgModel),
    Response(ResponseMsgModel),
    Other,
}

/// Mathematical model of a `NodeMsg`.
#[verifier::ext_equal]
pub struct NodeMsgModel {
    pub origin: u32,
    pub content: MsgContentModel,
}

impl View for RequestMsg {
    type V = RequestMsgModel;

    open spec fn view(&self) -> RequestMsgModel {
        RequestMsgModel { batch_req: self.batch_req.deep_view(), un_tx: self.un_tx.deep_view() }
    }
}

impl View for ResponseMsg {
    type V = ResponseMsgModel;

    open spec fn view(&self) -> ResponseMsgModel {
        ResponseMsgModel { tx_state: self.tx_state.deep_view() }
    }
}

impl View for MsgContent {
    type V = MsgContentModel;

    open spec fn view(&self) -> MsgContentModel {
        match self {
            MsgContent::Request(r) => MsgContentModel::Request(r@),
            MsgContent::Response(r) => MsgContentModel::Response(r@),
            MsgContent::Other => MsgContentModel::Other,
        }
    }
}

impl View for NodeMsg {
    type V = NodeMsgModel;

    open spec fn view(&self) -> NodeMsgModel {
        NodeMsgModel { origin: self.origin, content: self.content@ }
    }
}


// ---------------------------------------------------------------------
// The byte grammar of tracing-topic messages, little-endian throughout:
// a 4-byte origin node, a 1-byte content tag.  Tag 0 is a request: a
// 1-byte batch flag (1: a 4-byte hash count and that many
// length-prefixed hashes), then a 1-byte single-transaction flag (1: one
// length-prefixed hash).  Tag 1 is a response: a 1-byte state flag (1:
// one length-prefixed UTF-8 state body).  Any other tag is a message of
// no interest to the tracing pipeline.
// ---------------------------------------------------------------------

/// A length-prefixed byte field starting at `pos`: its bytes and the
/// position after it.
pub open spec fn spec_parse_bytes_field(b: Seq<u8>, pos: int) -> Option<(Seq<u8>, int)> {
    if pos + 2 <= b.len() {
        let n = spec_u16_from_le_bytes(b.subrange(pos, pos + 2)) as int;
        if pos + 2 + n <= b.len() {
            Some((b.subrange(pos + 2, pos + 2 + n), pos + 2 + n))
        } else {
            None
        }
    } else {
        None
    }
}

/// `count` consecutive length-prefixed hashes starting at `pos`.
pub open spec fn spec_parse_hashes(b: Seq<u8>, pos: int, count: nat) -> Option<
    (Seq<Seq<u8>>, int),
>
    decreases count,
{
    if count == 0 {
        Some((Seq::empty(), pos))
    } else {
        match spec_parse_bytes_field(b, pos) {
            None => None,
            Some((h, p1)) => match spec_parse_hashes(b, p1, (count - 1) as nat) {
                None => None,
                Some((rest, p2)) => Some((seq![h] + rest, p2)),
            },
        }
    }
}

/// Glues a parsed prefix onto the outcome of parsing the remaining
/// hashes.
pub open spec fn hashes_cont(
    prefix: Seq<Seq<u8>>,
    r: Option<(Seq<Seq<u8>>, int)>,
) -> Option<(Seq<Seq<u8>>, int)> {
    match r {
        None => None,
        Some((rest, e)) => Some((prefix + rest, e)),
    }
}

/// An optional length-prefixed hash starting at `pos`: a 1-byte flag,
/// then the hash when the flag says so.
pub open spec fn spec_parse_opt_bytes(b: Seq<u8>, pos: int) -> Option<(Option<Seq<u8>>, int)> {
    if pos + 1 <= b.len() {
        if b[pos] == 1 {
            match spec_parse_bytes_field(b, pos + 1) {
                None => None,
                Some((h, p)) => Some((Some(h), p)),
            }
        } else if b[pos] == 0 {
            Some((None, pos + 1))
        } else {
            None
        }
    } else {
        None
    }
}

/// The request part starting at `pos`: the optional batch, then the
/// optional single transaction.
pub open spec fn spec_parse_request(b: Seq<u8>, pos: int) -> Option<(RequestMsgModel, int)> {
    if pos + 1 <= b.len() {
        if b[pos] == 1 {
            if pos + 5 <= b.len() {
                let c = spec_u32_from_le_bytes(b.subrange(pos + 1, pos + 5)) as nat;
                match spec_parse_hashes(b, pos + 5, c) {
                    None => None,
                    Some((hs, p1)) => match spec_parse_opt_bytes(b, p1) {
                        None => None,
                        Some((u, p2)) => Some(
                            (RequestMsgModel { batch_req: Some(hs), un_tx: u }, p2),
                        ),
                    },
                }
            } else {
                None
            }
        } else if b[pos] == 0 {
            match spec_parse_opt_bytes(b, pos + 1) {
                None => None,
                Some((u, p2)) => Some((RequestMsgModel { batch_req: None, un_tx: u }, p2)),
            }
        } else {
            None
        }
    } else {
        None
    }
}

/// The tracing-topic message a payload carries, or `None` when the
/// payload is malformed.  The whole payload must be consumed.
pub open spec fn spec_decode_node_msg(b: Seq<u8>) -> Option<NodeMsgModel> {
    if b.len() >= 5 {
        let origin = spec_u32_from_le_bytes(b.subrange(0, 4));
        let tag = b[4];
        if tag == 0 {
            match spec_parse_request(b, 5) {
                None => None,
                Some((req, p)) => if p == b.len() {
                    Some(NodeMsgModel { origin, content: MsgContentModel::Request(req) })
                } else {
                    None
                },
            }
        } else if tag == 1 {
            if b.len() >= 6 {
                if b[5] == 1 {
                    match crate::codec::spec_parse_str(b, 6) {
                        None => None,
                        Some((body, p)) => if p == b.len() {
                            Some(
                                NodeMsgModel {
                                    origin,
                                    content: MsgContentModel::Response(
                                        ResponseMsgModel { tx_state: Some(body) },
                                    ),
                                },
                            )
                        } else {
                            None
                        },
                    }
                } else if b[5] == 0 {
                    if b.len() == 6 {
                        Some(
                            NodeMsgModel {
                                origin,
                                content: MsgContentModel::Response(
                                    ResponseMsgModel { tx_state: None },
                                ),
                            },
                        )
                    } else {
                        None
                    }
                } else {
                    None
                }
            } else {
                None
            }
        } else {
            Some(NodeMsgModel { origin, content: MsgContentModel::Other })
        }
    } else {
        None
    }
}

/// Reads the length-prefixed byte field starting at `pos`.
fn parse_bytes_field(data: &Vec<u8>, pos: usize) -> (r: Result<(Vec<u8>, usize), DecodeError>)
    requires
        pos <= data@.len(),
    ensures
        match r {
            Ok((v, end)) => spec_parse_bytes_field(data@, pos as int) == Some((v@, end as int))
                && pos < end <= data@.len(),
            Err(_) => spec_parse_bytes_field(data@, pos as int) is None,
        },
{
    if data.len() - pos < 2 {
        return Err(DecodeError::Malformed);
    }
    let n = u16_from_le_bytes(slice_subrange(data.as_slice(), pos, pos + 2)) as usize;
    if data.len() - (pos + 2) < n {
        return Err(DecodeError::Malformed);
    }
    let v = slice_to_vec(slice_subrange(data.as_slice(), pos + 2, pos + 2 + n));
    Ok((v, pos + 2 + n))
}

/// Reads the optional length-prefixed hash starting at `pos`.
fn parse_opt_bytes(data: &Vec<u8>, pos: usize) -> (r: Result<
    (Option<Vec<u8>>, usize),
    DecodeError,
>)
    requires
        pos <= data@.len(),
    ensures
        match r {
            Ok((v, end)) => spec_parse_opt_bytes(data@, pos as int) == Some(
                (v.deep_view(), end as int),
            ) && pos < end <= data@.len(),
            Err(_) => spec_parse_opt_bytes(data@, pos as int) is None,
        },
{
    if data.len() - pos < 1 {
        return Err(DecodeError::Malformed);
    }
    let flag = data[pos];
    if flag == 1 {
        match parse_bytes_field(data, pos + 1) {
            Ok((v, end)) => Ok((Some(v), end)),
            Err(e) => Err(e),
        }
    } else if flag == 0 {
        Ok((None, pos + 1))
    } else {
        Err(DecodeError::Malformed)
    }
}

/// Reads the request part starting at `pos`.
#[verifier::loop_isolation(false)]
fn parse_request(data: &Vec<u8>, pos: usize) -> (r: Result<(RequestMsg, usize), DecodeError>)
    requires
        pos <= data@.len(),
    ensures
        match r {
            Ok((m, end)) => spec_parse_request(data@, pos as int) == Some((m@, end as int))
                && pos < end <= data@.len(),
            Err(_) => spec_parse_request(data@, pos as int) is None,
        },
{
    if data.len() - pos < 1 {
        return Err(DecodeError::Malformed);
    }
    let flag = data[pos];
    if flag == 1 {
        if data.len() - (pos + 1) < 4 {
            return Err(DecodeError::Malformed);
        }
        let count = u32_from_le_bytes(slice_subrange(data.as_slice(), pos + 1, pos + 5));
        let ghost c = count as nat;
        let ghost hstart = (pos + 5) as int;
        let mut hashes: Vec<Vec<u8>> = Vec::new();
        let mut k: u32 = 0;
        let mut p: usize = pos + 5;
        proof {
            let r0 = spec_parse_hashes(data@, hstart, c);
            match r0 {
                None => {},
                Some((rest, e)) => {
                    assert(Seq::<Seq<u8>>::empty() + rest =~= rest);
                },
            }
            assert(hashes.deep_view() =~~= Seq::<Seq<u8>>::empty());
        }
        while k < count
            invariant
                k <= count,
                p <= data@.len(),
                hstart <= p as int,
                c == count as nat,
                spec_parse_hashes(data@, hstart, c) == hashes_cont(
                    hashes.deep_view(),
                    spec_parse_hashes(data@, p as int, (c - k as nat) as nat),
                ),
                hashes@.len() == k as nat,
            decreases count - k,
        {
            let ghost hashes_before = hashes.deep_view();
            let ghost p_before = p as int;
            let ghost remaining = (c - k as nat) as nat;
            let (hv, pn) = match parse_bytes_field(data, p) {
                Ok(x) => x,
                Err(_) => {
                    proof {
                        assert(spec_parse_hashes(data@, p as int, remaining) is None);
                        assert(spec_parse_hashes(data@, hstart, c) is None);
                        assert(spec_parse_request(data@, pos as int) is None);
                    }
                    return Err(DecodeError::Malformed);
                },
            };
            let ghost hvv = hv@;
            hashes.push(hv);
            p = pn;
            k = k + 1;
            proof {
                assert(hashes.deep_view() =~~= hashes_before.push(hvv));
                let r_rest = spec_parse_hashes(data@, p as int, (c - k as nat) as nat);
                match r_rest {
                    None => {},
                    Some((rest, e)) => {
                        assert(hashes_before + (seq![hvv] + rest) =~= hashes_before.push(hvv)
                            + rest);
                    },
                }
            }
        }
        proof {
            assert(spec_parse_hashes(data@, p as int, 0) == Some(
                (Seq::<Seq<u8>>::empty(), p as int),
            ));
            assert(hashes.deep_view() + Seq::<Seq<u8>>::empty() =~= hashes.deep_view());
        }
        let (un_tx, end) = match parse_opt_bytes(data, p) {
            Ok(x) => x,
            Err(e) => {
                return Err(e);
            },
        };
        let m = RequestMsg { batch_req: Some(hashes), un_tx };
        proof {
            assert(m@ =~~= (RequestMsgModel {
                batch_req: Some(hashes.deep_view()),
                un_tx: un_tx.deep_view(),
            }));
        }
        Ok((m, end))
    } else if flag == 0 {
        let (un_tx, end) = match parse_opt_bytes(data, pos + 1) {
            Ok(x) => x,
            Err(e) => {
                return Err(e);
            },
        };
        Ok((RequestMsg { batch_req: None, un_tx }, end))
    } else {
        Err(DecodeError::Malformed)
    }
}

/// Decodes a tracing-topic payload; rejects it exactly when it does not
/// follow the grammar.
pub fn decode_node_msg(data: &Vec<u8>) -> (r: Result<NodeMsg, DecodeError>)
    ensures
        match r {
            Ok(m) => spec_decode_node_msg(data@) == Some(m@),
            Err(_) => spec_decode_node_msg(data@) is None,
        },
{
    if data.len() < 5 {
        return Err(DecodeError::Malformed);
    }
    let origin = u32_from_le_bytes(slice_subrange(data.as_slice(), 0, 4));
    let tag = data[4];
    if tag == 0 {
        let (req, end) = match parse_request(data, 5) {
            Ok(x) => x,
            Err(e) => {
                return Err(e);
            },
        };
        if end != data.len() {
            return Err(DecodeError::Malformed);
        }
        Ok(NodeMsg { origin, content: MsgContent::Request(req) })
    } else if tag == 1 {
        if data.len() < 6 {
            return Err(DecodeError::Malformed);
        }
        let flag = data[5];
        if flag == 1 {
            let (body, end) = match crate::codec::parse_str(data, 6) {
                Ok(x) => x,
                Err(e) => {
                    return Err(e);
                },
            };
            if end != data.len() {
                return Err(DecodeError::Malformed);
            }
            Ok(
                NodeMsg {
                    origin,
                    content: MsgContent::Response(ResponseMsg { tx_state: Some(body) }),
                },
            )
        } else if flag == 0 {
            if data.len() != 6 {
                return Err(DecodeError::Malformed);
            }
            Ok(NodeMsg { origin, content: MsgContent::Response(ResponseMsg { tx_state: None }) })
        } else {
            Err(DecodeError::Malformed)
        }
    } else {
        Ok(NodeMsg { origin, content: MsgContent::Other })
    }
}

/// Whether a byte is an ASCII hex digit.
pub open spec fn spec_is_hex_digit(b: u8) -> bool {
    (48 <= b <= 57) || (97 <= b <= 102) || (65 <= b <= 70)
}

/// The value of an ASCII hex digit.
pub open spec fn spec_hex_val(b: u8) -> int {
    if 48 <= b <= 57 {
        b - 48
    } else if 97 <= b <= 102 {
        b - 87
    } else {
        b - 55
    }
}

/// A `0x`-prefixed, 64-digit hex rendering decoded to its 32 bytes, or
/// nothing when the bytes do not have that shape.
pub open spec fn spec_parse_hash_hex(bytes: Seq<u8>) -> Option<Seq<u8>> {
    if bytes.len() == 66 && bytes[0] == 48 && bytes[1] == 120 && (forall|i: int|
        2 <= i < 66 ==> spec_is_hex_digit(#[trigger] bytes[i])) {
        Some(
            Seq::new(
                32,
                |i: int| (spec_hex_val(bytes[2 + 2 * i]) * 16 + spec_hex_val(bytes[3 + 2 * i])) as u8,
            ),
        )
    } else {
        None
    }
}

/// Whether a byte is an ASCII hex digit.
fn is_hex_digit(b: u8) -> (r: bool)
    ensures
        r == spec_is_hex_digit(b),
{
    (48 <= b && b <= 57) || (97 <= b && b <= 102) || (65 <= b && b <= 70)
}

/// The value of an ASCII hex digit.
fn hex_val(b: u8) -> (v: u8)
    requires
        spec_is_hex_digit(b),
    ensures
        v == spec_hex_val(b),
        v < 16,
{
    if 48 <= b && b <= 57 {
        b - 48
    } else if 97 <= b && b <= 102 {
        b - 87
    } else {
        b - 55
    }
}

/// Parses a transaction hash from its `0x`-prefixed hex rendering;
/// succeeds exactly on a well-formed 64-digit rendering and returns
/// exactly its 32 bytes.
pub fn parse_hash_hex(s: &str) -> (r: Option<Vec<u8>>)
    ensures
        match r {
            Some(h) => spec_parse_hash_hex(s.spec_bytes()) == Some(h@),
            None => spec_parse_hash_hex(s.spec_bytes()) is None,
        },
{
    let bv = vstd::slice::slice_to_vec(s.as_bytes());
    parse_hash_hex_bytes(&bv)
}

/// Parses a transaction hash from the UTF-8 bytes of its rendering.
#[verifier::loop_isolation(false)]
fn parse_hash_hex_bytes(bv: &Vec<u8>) -> (r: Option<Vec<u8>>)
    ensures
        match r {
            Some(h) => spec_parse_hash_hex(bv@) == Some(h@),
            None => spec_parse_hash_hex(bv@) is None,
        },
{
    if bv.len() != 66 {
        return None;
    }
    if bv[0] != 48 || bv[1] != 120 {
        return None;
    }
    let mut out: Vec<u8> = Vec::new();
    let mut i: usize = 0;
    while i < 32
        invariant
            i <= 32,
            out@.len() == i,
            forall|j: int| 2 <= j < 2 + 2 * i ==> spec_is_hex_digit(#[trigger] bv@[j]),
            forall|k: int| 0 <= k < i ==> out@[k] == (spec_hex_val(bv@[2 + 2 * k]) * 16
                + spec_hex_val(bv@[3 + 2 * k])) as u8,
        decreases 32 - i,
    {
        let hi = bv[2 + 2 * i];
        let lo = bv[3 + 2 * i];
        if !is_hex_digit(hi) || !is_hex_digit(lo) {
            return None;
        }
        out.push(hex_val(hi) * 16 + hex_val(lo));
        i = i + 1;
    }
    proof {
        assert(spec_parse_hash_hex(bv@) is Some);
        assert(out@ =~= spec_parse_hash_hex(bv@)->0);
    }
    Some(out)
}

/// What the JSON reading of a transaction-state body extracts: the
/// UTF-8 bytes of the `hash` member's text and the characters of the
/// `status` member's text, when the body is a JSON object carrying both
/// members as strings.  The outcome depends on the body's characters
/// alone.
pub uninterp spec fn spec_json_hash_status(s: Seq<char>) -> Option<(Seq<u8>, Seq<char>)>;

/// Relies on `serde_json::from_str::<serde_json::Value>`,
/// `serde_json::Value::get` and `serde_json::Value::as_str`: parses the
/// body and extracts the texts of its `hash` and `status` members;
/// nothing when the body is not a JSON object carrying both as strings.
#[verifier::external_body]
fn json_hash_status(s: &str) -> (r: Option<(Vec<u8>, String)>)
    ensures
        match r {
            Some(p) => spec_json_hash_status(s@) == Some((p.0@, p.1@)),
            None => spec_json_hash_status(s@) is None,
        },
{
    let v: serde_json::Value = serde_json::from_str(s).ok()?;
    let hash = v.get("hash")?.as_str()?;
    let status = v.get("status")?.as_str()?;
    Some((hash.as_bytes().to_vec(), status.to_string()))
}

/// Parses the JSON body of a transaction-state response: an object
/// whose `hash` member carries the `0x`-prefixed transaction hash and
/// whose `status` member carries the acceptance status.  Succeeds
/// exactly when the JSON reading extracts both members and the hash
/// text is a well-formed 64-digit rendering, and returns exactly that
/// hash and status.
pub fn parse_tx_response(s: &str) -> (r: Option<TxResponse>)
    ensures
        match spec_json_hash_status(s@) {
            Some(p) => match spec_parse_hash_hex(p.0) {
                Some(hash) => (r matches Some(t) && t.hash@ == hash && t.status@ == p.1),
                None => r is None,
            },
            None => r is None,
        },
{
    let (hash_text, status) = match json_hash_status(s) {
        Some(p) => p,
        None => {
            return None;
        },
    };
    let hash = match parse_hash_hex_bytes(&hash_text) {
        Some(h) => h,
        None => {
            return None;
        },
    };
    Some(TxResponse { hash, status })
}

/// The hashes a request names: the whole batch when one is present,
/// else the single transaction, else none.
pub open spec fn spec_txs_from_request(req: RequestMsgModel) -> Seq<Seq<u8>> {
    match req.batch_req {
        Some(b) => b,
        None => match req.un_tx {
            Some(h) => seq![h],
            None => Seq::empty(),
        },
    }
}

/// How a translated message relates to the trace events it yields: a
/// request witnesses one reception per named transaction, from the
/// message's origin to the translating node; a response whose state
/// body's JSON reading and hash rendering succeed witnesses exactly one
/// origination of that hash by the translating node, and any other
/// response, like any other message, witnesses nothing.
pub open spec fn spec_translated(id: u32, m: NodeMsgModel, out: Seq<TraceModel>) -> bool {
    match m.content {
        MsgContentModel::Request(req) => out == Seq::new(
            spec_txs_from_request(req).len(),
            |i: int| TraceModel::ReceiveFrom(spec_txs_from_request(req)[i], id, m.origin),
        ),
        MsgContentModel::Response(resp) => match resp.tx_state {
            None => out == Seq::<TraceModel>::empty(),
            Some(body) => match spec_json_hash_status(body) {
                Some(p) => match spec_parse_hash_hex(p.0) {
                    Some(hash) => out == seq![TraceModel::Original(hash, id)],
                    None => out == Seq::<TraceModel>::empty(),
                },
                None => out == Seq::<TraceModel>::empty(),
            },
        },
        MsgContentModel::Other => out =~= Seq::<TraceModel>::empty(),
    }
}

/// The hashes of the transactions a request carries.
pub fn get_txs_from_request(request: RequestMsg) -> (txs: Vec<Vec<u8>>)
    ensures
        txs.deep_view() == spec_txs_from_request(request@),
{
    match request.batch_req {
        Some(b) => b,
        None => match request.un_tx {
            Some(h) => {
                let ghost hv = h@;
                let mut txs: Vec<Vec<u8>> = Vec::new();
                txs.push(h);
                proof {
                    assert(txs.deep_view() =~~= seq![hv]);
                }
                txs
            },
            None => {
                let txs: Vec<Vec<u8>> = Vec::new();
                proof {
                    assert(txs.deep_view() =~= Seq::<Seq<u8>>::empty());
                }
                txs
            },
        },
    }
}

/// The hash whose origination a response reports: exactly the parsed
/// hash of a state body whose JSON reading and hash rendering both
/// succeed, and nothing otherwise.
pub fn get_tx_from_response(response: &ResponseMsg) -> (r: Option<Vec<u8>>)
    ensures
        match response.tx_state {
            None => r is None,
            Some(body) => match spec_json_hash_status(body@) {
                Some(p) => match spec_parse_hash_hex(p.0) {
                    Some(hash) => (r matches Some(h) && h@ == hash),
                    None => r is None,
                },
                None => r is None,
            },
        },
{
    match &response.tx_state {
        Some(s) => match parse_tx_response(s.as_str()) {
            Some(t) => Some(t.hash),
            None => None,
        },
        None => None,
    }
}

/// One node translator: the endpoint it serves and the node identity
/// assigned to that endpoint by its position in the configuration.
pub struct Node {
    amqp_url: String,
    id: u32,
}

impl Node {
    /// The node identity this translator stamps onto its events.
    pub closed spec fn spec_id(&self) -> u32 {
        self.id
    }

    /// The endpoint this translator serves.
    pub closed spec fn spec_url(&self) -> Seq<char> {
        self.amqp_url@
    }

    /// A translator for one endpoint under one assigned node identity.
    pub fn new(amqp_url: &str, node_id: u32) -> (n: Node)
        ensures
            n.spec_id() == node_id,
            n.spec_url() == amqp_url@,
    {
        Node { amqp_url: amqp_url.to_owned(), id: node_id }
    }

    /// Turns one raw tracing-topic message into the trace events it
    /// witnesses; a payload that does not follow the grammar witnesses
    /// nothing.
    pub fn handle(&self, message: (String, Vec<u8>)) -> (traces: Vec<Trace>)
        ensures
            match spec_decode_node_msg(message.1@) {
                Some(m) => spec_translated(self.spec_id(), m, traces.deep_view()),
                None => traces.deep_view() =~= Seq::<TraceModel>::empty(),
            },
    {
        let (_topic, content) = message;
        match decode_node_msg(&content) {
            Ok(m) => self.translate(m),
            Err(_) => {
                let traces: Vec<Trace> = Vec::new();
                proof {
                    assert(traces.deep_view() =~= Seq::<TraceModel>::empty());
                }
                traces
            },
        }
    }

    /// Turns one typed tracing-topic message into the trace events it
    /// witnesses: each transaction of a request was received by this
    /// node from the message's origin; a transaction-state response that
    /// parses names this node as the originator; everything else
    /// witnesses nothing.
    #[verifier::loop_isolation(false)]
    pub fn translate(&self, message: NodeMsg) -> (traces: Vec<Trace>)
        ensures
            spec_translated(self.spec_id(), message@, traces.deep_view()),
    {
        let from = message.origin;
        let mut traces: Vec<Trace> = Vec::new();
        match message.content {
            MsgContent::Request(request) => {
                let ghost req = request@;
                let txs = get_txs_from_request(request);
                let ghost target = Seq::new(
                    spec_txs_from_request(req).len(),
                    |i: int| TraceModel::ReceiveFrom(
                        spec_txs_from_request(req)[i],
                        self.spec_id(),
                        from,
                    ),
                );
                let mut i: usize = 0;
                while i < txs.len()
                    invariant
                        i <= txs.len(),
                        traces.deep_view() =~= target.subrange(0, i as int),
                    decreases txs.len() - i,
                {
                    let ghost before = traces.deep_view();
                    let hash = clone_bytes(&txs[i]);
                    traces.push(Trace::ReceiveFrom(hash, self.id, from));
                    i = i + 1;
                    proof {
                        assert(traces.deep_view() =~= before.push(
                            TraceModel::ReceiveFrom(txs[i - 1]@, self.spec_id(), from),
                        ));
                        assert(txs[i - 1]@ =~= txs.deep_view()[i - 1]);
                        assert(traces.deep_view() =~= target.subrange(0, i as int));
                    }
                }
                proof {
                    assert(target.subrange(0, target.len() as int) =~= target);
                }
                traces
            },
            MsgContent::Response(response) => {
                match get_tx_from_response(&response) {
                    Some(hash) => {
                        let ghost hv = hash@;
                        traces.push(Trace::Original(hash, self.id));
                        proof {
                            assert(traces.deep_view() =~= seq![
                                TraceModel::Original(hv, self.spec_id()),
                            ]);
                        }
                    },
                    None => {
                        proof {
                            assert(traces.deep_view() =~= Seq::<TraceModel>::empty());
                        }
                    },
                }
                traces
            },
            MsgContent::Other => {
                proof {
                    assert(traces.deep_view() =~= Seq::<TraceModel>::empty());
                }
                traces
            },
        }
    }
}

} // verus!
