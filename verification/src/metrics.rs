//! The category handler shared by the jsonrpc, auth and network metric
//! categories: it decodes each inbound pre-computed metric batch, replaces
//! its snapshot wholesale, and hands the scrape path every stored sample
//! with the source endpoint stamped on as one more label.  A payload that
//! does not decode leaves the previous snapshot untouched.

use vstd::prelude::*;
use crate::codec::{decode_metrics, spec_decode_metrics, DecodeError};
use crate::proto::{Metric, MetricKey, MetricKeyModel, MetricModel};

verus! {

/// One sample with the source endpoint stamped on as one more label.
pub open spec fn spec_tag(m: MetricModel, url: Seq<char>) -> MetricModel {
    MetricModel {
        key: MetricKeyModel {
            metric_type: m.key.metric_type,
            name: m.key.name,
            labels: m.key.labels.push(("amqp_url"@, url)),
        },
        value_milli: m.value_milli,
    }
}

/// A whole snapshot with the source endpoint stamped onto every sample.
pub open spec fn spec_tagged(ms: Seq<MetricModel>, url: Seq<char>) -> Seq<MetricModel> {
    Seq::new(ms.len(), |i: int| spec_tag(ms[i], url))
}

/// Law: a snapshot taken before anything was ingested is the empty
/// sequence, never an error — stamping the source onto an empty
/// collection yields the empty collection.
pub proof fn lemma_snapshot_before_ingest_is_empty(url: Seq<char>)
    ensures
        spec_tagged(Seq::<MetricModel>::empty(), url) =~= Seq::<MetricModel>::empty(),
{
}

/// How one `process` call relates the handler's state before and after:
/// a payload that decodes replaces the snapshot wholesale and is
/// acknowledged; one that does not is rejected with the snapshot
/// retained.  The endpoint binding never changes.
pub open spec fn spec_metrics_process(
    pre: Metrics,
    post: Metrics,
    data: Seq<u8>,
    r: Result<(), DecodeError>,
) -> bool {
    &&& post.spec_url() == pre.spec_url()
    &&& match spec_decode_metrics(data) {
        Some(ms) => r is Ok && post.spec_metrics() == ms,
        None => r is Err && post.spec_metrics() == pre.spec_metrics(),
    }
}

/// One metric category's handler: the source endpoint it is bound to and
/// the most recently ingested batch.
pub struct Metrics {
    amqp_url: String,
    metrics: Vec<Metric>,
}

impl Metrics {
    /// The endpoint tag this handler stamps onto its samples.
    pub closed spec fn spec_url(&self) -> Seq<char> {
        self.amqp_url@
    }

    /// The stored snapshot, as it was last replaced.
    pub closed spec fn spec_metrics(&self) -> Seq<MetricModel> {
        self.metrics.deep_view()
    }

    /// A fresh handler: its snapshot starts empty.
    pub fn new(amqp_url: &str) -> (m: Metrics)
        ensures
            m.spec_url() == amqp_url@,
            m.spec_metrics() =~= Seq::<MetricModel>::empty(),
    {
        Metrics { amqp_url: amqp_url.to_owned(), metrics: Vec::new() }
    }

    /// Ingests one batch: a payload that follows the wire grammar
    /// replaces the snapshot wholesale; any other payload is rejected and
    /// the previous snapshot is retained unchanged.
    pub fn process(&mut self, data: Vec<u8>) -> (r: Result<(), DecodeError>)
        ensures
            spec_metrics_process(*old(self), *final(self), data@, r),
    {
        match decode_metrics(&data) {
            Ok(ms) => {
                self.metrics = ms;
                Ok(())
            },
            Err(e) => Err(e),
        }
    }

    /// The scrape-path snapshot: every stored sample with one more label,
    /// the source endpoint, appended to its label set.
    #[verifier::loop_isolation(false)]
    pub fn gather(&self) -> (out: Vec<Metric>)
        ensures
            out.deep_view() == spec_tagged(self.spec_metrics(), self.spec_url()),
    {
        let mut out: Vec<Metric> = Vec::new();
        let mut i: usize = 0;
        proof {
            assert(out.deep_view() =~= spec_tagged(self.spec_metrics(), self.spec_url()).subrange(
                0,
                0,
            ));
        }
        while i < self.metrics.len()
            invariant
                i <= self.metrics.len(),
                out.deep_view() =~= spec_tagged(self.spec_metrics(), self.spec_url()).subrange(
                    0,
                    i as int,
                ),
            decreases self.metrics.len() - i,
        {
            let ghost out_before = out.deep_view();
            let m = &self.metrics[i];
            let tagged = tag_metric(m, &self.amqp_url);
            out.push(tagged);
            i = i + 1;
            proof {
                assert(out.deep_view() =~= out_before.push(tagged@));
                assert(out.deep_view() =~= spec_tagged(
                    self.spec_metrics(),
                    self.spec_url(),
                ).subrange(0, i as int));
            }
        }
        proof {
            assert(spec_tagged(self.spec_metrics(), self.spec_url()).subrange(
                0,
                self.metrics@.len() as int,
            ) =~= spec_tagged(self.spec_metrics(), self.spec_url()));
        }
        out
    }
}

/// Builds the scrape-path copy of one sample: the same key and value with
/// the source endpoint appended to the label set.
#[verifier::loop_isolation(false)]
fn tag_metric(m: &Metric, url: &String) -> (out: Metric)
    ensures
        out@ == spec_tag(m@, url@),
{
    let mut labels: Vec<(String, String)> = Vec::new();
    let mut j: usize = 0;
    while j < m.key.labels.len()
        invariant
            j <= m.key.labels.len(),
            labels.deep_view() =~= m.key.labels.deep_view().subrange(0, j as int),
        decreases m.key.labels.len() - j,
    {
        let ghost labels_before = labels.deep_view();
        let name = m.key.labels[j].0.clone();
        let value = m.key.labels[j].1.clone();
        labels.push((name, value));
        j = j + 1;
        proof {
            assert(labels.deep_view() =~= labels_before.push((name@, value@)));
            assert(labels.deep_view() =~= m.key.labels.deep_view().subrange(0, j as int));
        }
    }
    proof {
        assert(m.key.labels.deep_view().subrange(0, m.key.labels@.len() as int)
            =~= m.key.labels.deep_view());
    }
    let ghost labels_before = labels.deep_view();
    labels.push(("amqp_url".to_owned(), url.clone()));
    proof {
        assert(labels.deep_view() =~= labels_before.push(("amqp_url"@, url@)));
    }
    let out = Metric {
        key: MetricKey {
            metric_type: m.key.metric_type,
            name: m.key.name.clone(),
            labels,
        },
        value_milli: m.value_milli,
    };
    proof {
        assert(out@ =~= spec_tag(m@, url@));
    }
    out
}

} // verus!
