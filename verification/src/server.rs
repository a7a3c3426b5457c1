//! The shared state between the ingest loop and the concurrent scrape
//! path.  Each dispatcher sits behind a verified reader-writer lock:
//! ingestion takes the write side and publishes a fully-applied state;
//! a scrape takes the read side and renders one single consistent
//! state — never a mixture of a snapshot before and after an update.

use vstd::prelude::*;
use vstd::rwlock::{RwLock, RwLockPredicate};
use crate::codec::DecodeError;
use crate::dispatcher::{spec_dispatcher_gather, spec_routed, Dispatcher};
use crate::proto::{Metric, MetricModel};

verus! {

/// The invariant every published dispatcher state satisfies.
pub struct WfDispatcher {}

impl RwLockPredicate<Dispatcher> for WfDispatcher {
    open spec fn inv(self, d: Dispatcher) -> bool {
        d.wf()
    }
}

/// One dispatcher shared between the router loop and the scrape path.
pub struct SharedDispatcher {
    lock: RwLock<Dispatcher, WfDispatcher>,
}

impl SharedDispatcher {
    /// Publishes a fresh dispatcher.
    pub fn new(dispatcher: Dispatcher) -> SharedDispatcher
        requires
            dispatcher.wf(),
    {
        SharedDispatcher { lock: RwLock::new(dispatcher, Ghost(WfDispatcher {})) }
    }

    /// Routes one message into the shared dispatcher.  The published
    /// state moves atomically from one fully-applied state to the next,
    /// related exactly as the router's dispatch says.
    pub fn ingest(&self, msg: (String, Vec<u8>)) -> (r: Result<(), DecodeError>)
        ensures
            exists|pre: Dispatcher, post: Dispatcher|
                pre.wf() && post.wf() && #[trigger] spec_routed(pre, post, msg.0@, msg.1@, r),
    {
        let ghost topic = msg.0@;
        let ghost payload = msg.1@;
        let (mut dispatcher, write_handle) = self.lock.acquire_write();
        let ghost pre = dispatcher;
        let r = dispatcher.process(msg);
        proof {
            assert(spec_routed(pre, dispatcher, topic, payload, r));
        }
        write_handle.release_write(dispatcher);
        r
    }

    /// Law: all-or-nothing visibility for the scrape path — whatever
    /// ingestion runs concurrently, a snapshot is the rendering of one
    /// single, fully-applied dispatcher state, with every sample's
    /// label set complete.
    pub fn snapshot(&self) -> (out: Vec<Metric>)
        ensures
            exists|d: Dispatcher| d.wf() && out.deep_view() == #[trigger] spec_dispatcher_gather(
                d,
            ),
    {
        let read_handle = self.lock.acquire_read();
        let dispatcher = read_handle.borrow();
        let out = dispatcher.gather();
        proof {
            assert(dispatcher.wf() && out.deep_view() == spec_dispatcher_gather(*dispatcher));
        }
        read_handle.release_read();
        out
    }
}

/// The scrape endpoint's shared state: every endpoint's dispatcher and
/// the request timeout in seconds.
pub struct Server {
    pub dispatchers: Vec<SharedDispatcher>,
    pub timeout: u64,
}

/// Snapshots drawn one per dispatcher, each from one consistent state.
pub open spec fn spec_snapshots_of(ds: Seq<Dispatcher>, out: Seq<Seq<MetricModel>>) -> bool {
    &&& ds.len() == out.len()
    &&& forall|i: int|
        0 <= i < ds.len() ==> (#[trigger] ds[i]).wf() && out[i] == spec_dispatcher_gather(ds[i])
}

/// The concatenation of a sequence of snapshots.
pub open spec fn spec_concat(out: Seq<Seq<MetricModel>>) -> Seq<MetricModel>
    decreases out.len(),
{
    if out.len() == 0 {
        Seq::empty()
    } else {
        out[0] + spec_concat(out.subrange(1, out.len() as int))
    }
}

/// Appending one more snapshot appends its samples.
proof fn lemma_concat_push(out: Seq<Seq<MetricModel>>, s: Seq<MetricModel>)
    ensures
        spec_concat(out.push(s)) =~= spec_concat(out) + s,
    decreases out.len(),
{
    let p = out.push(s);
    if out.len() == 0 {
        assert(p[0] == s);
        assert(p.subrange(1, 1) =~= Seq::<Seq<MetricModel>>::empty());
        assert(spec_concat(p) == p[0] + spec_concat(p.subrange(1, 1)));
        assert(spec_concat(p) =~= s);
        assert(spec_concat(out) + s =~= s);
    } else {
        assert(p[0] == out[0]);
        assert(p.subrange(1, p.len() as int) =~= out.subrange(1, out.len() as int).push(s));
        lemma_concat_push(out.subrange(1, out.len() as int), s);
        assert(out[0] + (spec_concat(out.subrange(1, out.len() as int)) + s) =~= (out[0]
            + spec_concat(out.subrange(1, out.len() as int))) + s);
    }
}

impl Server {
    /// The scrape collection step: one snapshot per dispatcher, in
    /// order, each drawn from one consistent state, concatenated.
    #[verifier::loop_isolation(false)]
    pub fn collect(&self) -> (out: Vec<Metric>)
        ensures
            exists|snaps: Seq<Seq<MetricModel>>, ds: Seq<Dispatcher>|
                #[trigger] spec_snapshots_of(ds, snaps) && ds.len()
                    == self.dispatchers@.len() && out.deep_view() == spec_concat(snaps),
    {
        let mut out: Vec<Metric> = Vec::new();
        let ghost mut ds: Seq<Dispatcher> = Seq::empty();
        let ghost mut snaps: Seq<Seq<MetricModel>> = Seq::empty();
        let mut i: usize = 0;
        proof {
            assert(out.deep_view() =~= Seq::<MetricModel>::empty());
            assert(spec_concat(snaps) =~= Seq::<MetricModel>::empty());
        }
        while i < self.dispatchers.len()
            invariant
                i <= self.dispatchers.len(),
                ds.len() == i,
                spec_snapshots_of(ds, snaps),
                out.deep_view() == spec_concat(snaps),
            decreases self.dispatchers.len() - i,
        {
            let ghost out_before = out.deep_view();
            let mut v = self.dispatchers[i].snapshot();
            let ghost g = v.deep_view();
            proof {
                let d = choose|d: Dispatcher|
                    d.wf() && g == #[trigger] spec_dispatcher_gather(d);
                lemma_concat_push(snaps, g);
                ds = ds.push(d);
                snaps = snaps.push(g);
            }
            out.append(&mut v);
            i = i + 1;
            proof {
                assert(out.deep_view() =~= out_before + g);
            }
        }
        out
    }
}

} // verus!
