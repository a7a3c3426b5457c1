//! The topic router: each inbound `(topic, payload)` event is dispatched,
//! by exact string match on the topic, to exactly one of the four
//! category handlers; every topic outside the three pre-computed metric
//! topics falls to the consensus handler.  The router performs no
//! decoding itself, and `gather` concatenates the four category
//! snapshots for the scrape path.

use vstd::prelude::*;
use crate::codec::DecodeError;
use crate::consensus_metrics::{
    spec_consensus_gather, spec_consensus_process, ConsensusMetrics,
};
use crate::metrics::{spec_metrics_process, spec_tagged, Metrics};
use crate::proto::{Metric, MetricModel};

verus! {

/// The handler a topic routes to.
#[derive(Clone, Copy, PartialEq, Eq, Structural, Debug)]
pub enum Category {
    Jsonrpc,
    Auth,
    Network,
    Consensus,
}

/// Which handler a topic routes to: exact match on the three
/// pre-computed metric topics, everything else to the consensus handler.
pub open spec fn spec_route(topic: Seq<char>) -> Category {
    if topic == "jsonrpc.metrics"@ {
        Category::Jsonrpc
    } else if topic == "auth.metrics"@ {
        Category::Auth
    } else if topic == "network.metrics"@ {
        Category::Network
    } else {
        Category::Consensus
    }
}

/// Pure dispatch decision for one topic string.
pub fn route(topic: &String) -> (c: Category)
    ensures
        c == spec_route(topic@),
{
    let jsonrpc: String = "jsonrpc.metrics".to_owned();
    let auth: String = "auth.metrics".to_owned();
    let network: String = "network.metrics".to_owned();
    if *topic == jsonrpc {
        Category::Jsonrpc
    } else if *topic == auth {
        Category::Auth
    } else if *topic == network {
        Category::Network
    } else {
        Category::Consensus
    }
}

/// Routes each subscribed message to the right category handler, and
/// serves the concatenated snapshot to the scrape path.
pub struct Dispatcher {
    consensus_metrics: ConsensusMetrics,
    jsonrpc_metrics: Metrics,
    auth_metrics: Metrics,
    network_metrics: Metrics,
}

/// The snapshot a dispatcher serves: the consensus category first, then
/// jsonrpc, auth and network, each tagged with its source endpoint.
pub open spec fn spec_dispatcher_gather(d: Dispatcher) -> Seq<MetricModel> {
    spec_consensus_gather(d.spec_consensus().spec_state(), d.spec_consensus().spec_url())
        + spec_tagged(d.spec_jsonrpc().spec_metrics(), d.spec_jsonrpc().spec_url()) + spec_tagged(
        d.spec_auth().spec_metrics(),
        d.spec_auth().spec_url(),
    ) + spec_tagged(d.spec_network().spec_metrics(), d.spec_network().spec_url())
}

/// The concatenation of the snapshots of many dispatchers, in order.
pub open spec fn spec_collect(ds: Seq<Dispatcher>) -> Seq<MetricModel>
    decreases ds.len(),
{
    if ds.len() == 0 {
        Seq::empty()
    } else {
        spec_dispatcher_gather(ds[0]) + spec_collect(ds.subrange(1, ds.len() as int))
    }
}

/// How one routed message relates the dispatcher's state before and
/// after: the handler `spec_route` picks makes its own transition; the
/// other three handlers are untouched.
pub open spec fn spec_routed(
    pre: Dispatcher,
    post: Dispatcher,
    topic: Seq<char>,
    payload: Seq<u8>,
    r: Result<(), DecodeError>,
) -> bool {
    match spec_route(topic) {
        Category::Jsonrpc => {
            &&& spec_metrics_process(
                pre.spec_jsonrpc(),
                post.spec_jsonrpc(),
                payload,
                r,
            )
            &&& post.spec_auth() == pre.spec_auth()
            &&& post.spec_network() == pre.spec_network()
            &&& post.spec_consensus() == pre.spec_consensus()
        },
        Category::Auth => {
            &&& spec_metrics_process(
                pre.spec_auth(),
                post.spec_auth(),
                payload,
                r,
            )
            &&& post.spec_jsonrpc() == pre.spec_jsonrpc()
            &&& post.spec_network() == pre.spec_network()
            &&& post.spec_consensus() == pre.spec_consensus()
        },
        Category::Network => {
            &&& spec_metrics_process(
                pre.spec_network(),
                post.spec_network(),
                payload,
                r,
            )
            &&& post.spec_jsonrpc() == pre.spec_jsonrpc()
            &&& post.spec_auth() == pre.spec_auth()
            &&& post.spec_consensus() == pre.spec_consensus()
        },
        Category::Consensus => {
            &&& spec_consensus_process(
                pre.spec_consensus(),
                post.spec_consensus(),
                payload,
                r,
            )
            &&& post.spec_jsonrpc() == pre.spec_jsonrpc()
            &&& post.spec_auth() == pre.spec_auth()
            &&& post.spec_network() == pre.spec_network()
        },
    }
}

impl Dispatcher {
    /// The consensus handler of this dispatcher.
    pub closed spec fn spec_consensus(&self) -> ConsensusMetrics {
        self.consensus_metrics
    }

    /// The jsonrpc handler of this dispatcher.
    pub closed spec fn spec_jsonrpc(&self) -> Metrics {
        self.jsonrpc_metrics
    }

    /// The auth handler of this dispatcher.
    pub closed spec fn spec_auth(&self) -> Metrics {
        self.auth_metrics
    }

    /// The network handler of this dispatcher.
    pub closed spec fn spec_network(&self) -> Metrics {
        self.network_metrics
    }

    /// The dispatcher is well-formed when its consensus handler is.
    pub open spec fn wf(&self) -> bool {
        self.spec_consensus().wf()
    }

    /// A dispatcher over the four freshly-built category handlers.
    pub fn new(
        consensus_metrics: ConsensusMetrics,
        jsonrpc_metrics: Metrics,
        auth_metrics: Metrics,
        network_metrics: Metrics,
    ) -> (d: Dispatcher)
        ensures
            d.spec_consensus() == consensus_metrics,
            d.spec_jsonrpc() == jsonrpc_metrics,
            d.spec_auth() == auth_metrics,
            d.spec_network() == network_metrics,
    {
        Dispatcher { consensus_metrics, jsonrpc_metrics, auth_metrics, network_metrics }
    }

    /// Delivers one subscribed message to exactly one handler, picked by
    /// `spec_route`; the other three handlers are untouched.  A decode
    /// failure is reported to the caller and never propagates further.
    pub fn process(&mut self, msg: (String, Vec<u8>)) -> (r: Result<(), DecodeError>)
        requires
            old(self).wf(),
        ensures
            final(self).wf(),
            spec_routed(*old(self), *final(self), msg.0@, msg.1@, r),
    {
        let (key, content) = msg;
        match route(&key) {
            Category::Jsonrpc => self.jsonrpc_metrics.process(content),
            Category::Auth => self.auth_metrics.process(content),
            Category::Network => self.network_metrics.process(content),
            Category::Consensus => self.consensus_metrics.process(content),
        }
    }

    /// The concatenation of the four category snapshots, in a fixed
    /// order: consensus, jsonrpc, auth, network.
    pub fn gather(&self) -> (out: Vec<Metric>)
        ensures
            out.deep_view() == spec_dispatcher_gather(*self),
    {
        let mut out = self.consensus_metrics.gather();
        let mut v1 = self.jsonrpc_metrics.gather();
        let mut v2 = self.auth_metrics.gather();
        let mut v3 = self.network_metrics.gather();
        let ghost g0 = out.deep_view();
        let ghost g1 = v1.deep_view();
        let ghost g2 = v2.deep_view();
        let ghost g3 = v3.deep_view();
        out.append(&mut v1);
        proof {
            assert(out.deep_view() =~= g0 + g1);
        }
        out.append(&mut v2);
        proof {
            assert(out.deep_view() =~= g0 + g1 + g2);
        }
        out.append(&mut v3);
        proof {
            assert(out.deep_view() =~= g0 + g1 + g2 + g3);
        }
        out
    }
}

/// The scrape endpoint's collection step: the snapshots of every
/// dispatcher, concatenated in order.
#[verifier::loop_isolation(false)]
pub fn collect_all(dispatchers: &Vec<Dispatcher>) -> (out: Vec<Metric>)
    ensures
        out.deep_view() == spec_collect(dispatchers@),
{
    let mut out: Vec<Metric> = Vec::new();
    let mut i: usize = 0;
    proof {
        assert(out.deep_view() =~= Seq::<MetricModel>::empty());
        assert(dispatchers@.subrange(0, dispatchers@.len() as int) =~= dispatchers@);
    }
    while i < dispatchers.len()
        invariant
            i <= dispatchers.len(),
            out.deep_view() + spec_collect(
                dispatchers@.subrange(i as int, dispatchers@.len() as int),
            ) == spec_collect(dispatchers@),
        decreases dispatchers.len() - i,
    {
        let ghost out_before = out.deep_view();
        let ghost rest = dispatchers@.subrange(i as int, dispatchers@.len() as int);
        let mut v = dispatchers[i].gather();
        let ghost g = v.deep_view();
        out.append(&mut v);
        i = i + 1;
        proof {
            assert(rest[0] == dispatchers@[i - 1]);
            assert(rest.subrange(1, rest.len() as int) =~= dispatchers@.subrange(
                i as int,
                dispatchers@.len() as int,
            ));
            assert(out.deep_view() =~= out_before + g);
            assert(out_before + (g + spec_collect(
                dispatchers@.subrange(i as int, dispatchers@.len() as int),
            )) =~= (out_before + g) + spec_collect(
                dispatchers@.subrange(i as int, dispatchers@.len() as int),
            ));
        }
    }
    proof {
        assert(spec_collect(dispatchers@.subrange(
            dispatchers@.len() as int,
            dispatchers@.len() as int,
        )) =~= Seq::<MetricModel>::empty());
        assert(out.deep_view() + Seq::<MetricModel>::empty() =~= out.deep_view());
    }
    out
}

} // verus!
