//! Gauges and counters, and their wire form.

use vstd::prelude::*;
use crate::errors::{view_ok, Error, MetricFault};
use crate::pb_messages::{PbMetric, PbMetricValue, PbMetricView, PbMetrics, PbMetricsView};

verus! {

/// One sample of a metrics source.
#[derive(Debug, Clone, Copy, PartialEq, Eq, Structural)]
pub enum Metric {
    /// A value as it is right now; each sample overwrites the last.
    Gauge(i64),
    /// A count that never goes down.
    Counter(u64),
}

impl View for Metric {
    type V = Metric;

    open spec fn view(&self) -> Metric {
        *self
    }
}

impl DeepView for Metric {
    type V = Metric;

    open spec fn deep_view(&self) -> Metric {
        *self
    }
}

/// A named sample, as the contracts see it.
pub type Sample = (Seq<char>, Metric);

/// Every name in the listing is non-empty.
pub open spec fn all_named(listing: Seq<Sample>) -> bool {
    forall|i: int| 0 <= i < listing.len() ==> (#[trigger] listing[i]).0.len() > 0
}

/// No name occurs twice in the listing.
pub open spec fn distinct_names(listing: Seq<Sample>) -> bool {
    forall|i: int, j: int|
        0 <= i < j < listing.len() ==> (#[trigger] listing[i]).0 != (#[trigger] listing[j]).0
}

/// A container of status information for one component: an ordered listing
/// of named samples, each name used once.
pub trait Metrics: core::fmt::Debug + Clone {
    /// The listing that `data` reports.
    spec fn listing(&self) -> Seq<Sample>;

    /// Reports the current samples, in the order of declaration.
    fn data(&self) -> (list: Vec<(String, Metric)>)
        ensures
            list.deep_view() == self.listing(),
    ;

    /// Every sample of the listing has a name, and no name is used twice.
    proof fn lemma_names(&self)
        ensures
            all_named(self.listing()),
            distinct_names(self.listing()),
    ;
}

/// Whatever a metrics source reports survives the wire unchanged.
pub proof fn lemma_source_round_trip<M: Metrics>(source: &M)
    ensures
        decode_listing(listing_to_pb(source.listing())) == Ok::<Seq<Sample>, Error>(
            source.listing(),
        ),
{
    source.lemma_names();
    lemma_metrics_round_trip(source.listing());
}

/// The wire record of one named sample.
pub open spec fn sample_to_pb(sample: Sample) -> PbMetricView {
    PbMetricView {
        name: Some(sample.0),
        value: Some(
            match sample.1 {
                Metric::Gauge(v) => PbMetricValue::Gauge(v),
                Metric::Counter(v) => PbMetricValue::Counter(v),
            },
        ),
    }
}

/// The wire record of a listing: one record for each sample, in order.
pub open spec fn listing_to_pb(listing: Seq<Sample>) -> PbMetricsView {
    PbMetricsView { metrics: Seq::new(listing.len(), |i: int| sample_to_pb(listing[i])) }
}

/// What one wire record decodes to. The name is looked at first: a record
/// without a name, or with an empty one, is refused whatever its value.
pub open spec fn decode_sample(pb: PbMetricView) -> Result<Sample, MetricFault> {
    match pb.name {
        None => Err(MetricFault::NoName),
        Some(name) => if name.len() == 0 {
            Err(MetricFault::NoName)
        } else {
            match pb.value {
                None => Err(MetricFault::NoValue),
                Some(PbMetricValue::Histogram) => Err(MetricFault::Histogram),
                Some(PbMetricValue::Gauge(v)) => Ok((name, Metric::Gauge(v))),
                Some(PbMetricValue::Counter(v)) => Ok((name, Metric::Counter(v))),
            }
        },
    }
}

/// Record `index` is the first of `records` that cannot be decoded.
pub open spec fn first_fault_at(records: Seq<PbMetricView>, index: int) -> bool {
    &&& 0 <= index < records.len()
    &&& decode_sample(records[index]) is Err
    &&& forall|j: int| 0 <= j < index ==> decode_sample(#[trigger] records[j]) is Ok
}

/// What a wire listing decodes to: the samples in order where every record
/// decodes, and else the fault of the first record that does not, with
/// that record's index.
pub open spec fn decode_listing(pb: PbMetricsView) -> Result<Seq<Sample>, Error> {
    if exists|i: int| first_fault_at(pb.metrics, i) {
        let index = choose|i: int| first_fault_at(pb.metrics, i);
        Err(
            Error::Metric {
                index: index as usize,
                fault: decode_sample(pb.metrics[index])->Err_0,
            },
        )
    } else {
        Ok(Seq::new(pb.metrics.len(), |i: int| decode_sample(pb.metrics[i])->Ok_0))
    }
}

/// At most one record is the first that cannot be decoded.
pub proof fn lemma_first_fault_unique(records: Seq<PbMetricView>, i: int, j: int)
    requires
        first_fault_at(records, i),
        first_fault_at(records, j),
    ensures
        i == j,
{
    if i < j {
        assert(decode_sample(records[i]) is Ok);
    } else if j < i {
        assert(decode_sample(records[j]) is Ok);
    }
}

impl PbMetric {
    /// Writes a named sample as a wire record.
    pub fn from(name: String, metric: Metric) -> (pb: PbMetric)
        ensures
            pb@ == sample_to_pb((name@, metric)),
    {
        let value = match metric {
            Metric::Gauge(v) => PbMetricValue::Gauge(v),
            Metric::Counter(v) => PbMetricValue::Counter(v),
        };
        PbMetric { name: Some(name), value: Some(value) }
    }

    /// Reads a named sample from a wire record.
    pub fn try_into_sample(self) -> (r: Result<(String, Metric), MetricFault>)
        ensures
            view_ok(r) == decode_sample(self@),
    {
        match self.name {
            None => Err(MetricFault::NoName),
            Some(name) => {
                if name.as_str().unicode_len() == 0 {
                    return Err(MetricFault::NoName);
                }
                match self.value {
                    None => Err(MetricFault::NoValue),
                    Some(PbMetricValue::Histogram) => Err(MetricFault::Histogram),
                    Some(PbMetricValue::Gauge(v)) => Ok((name, Metric::Gauge(v))),
                    Some(PbMetricValue::Counter(v)) => Ok((name, Metric::Counter(v))),
                }
            },
        }
    }
}

impl PbMetrics {
    /// Writes a listing as a wire record, sample by sample, in order.
    pub fn from(metrics: Vec<(String, Metric)>) -> (pb: PbMetrics)
        ensures
            pb@ == listing_to_pb(metrics.deep_view()),
    {
        let ghost goal = listing_to_pb(metrics.deep_view()).metrics;
        let mut records: Vec<PbMetric> = Vec::new();
        for sample in iter: metrics.into_iter()
            invariant
                iter.seq().len() == goal.len(),
                forall|i: int|
                    0 <= i < goal.len() ==> sample_to_pb(iter.seq()[i].deep_view()) == goal[i],
                records.len() == iter.index(),
                forall|i: int| 0 <= i < records.len() ==> records[i]@ == goal[i],
        {
            records.push(PbMetric::from(sample.0, sample.1));
        }
        assert(records.deep_view() =~= goal);
        PbMetrics { metrics: records }
    }
}

/// Reads a listing from its wire record. Decoding stops at the first record
/// that cannot be decoded and reports that record's fault and index.
pub fn try_from(pb: PbMetrics) -> (r: Result<Vec<(String, Metric)>, Error>)
    ensures
        view_ok(r) == decode_listing(pb@),
{
    let ghost records = pb@.metrics;
    let mut metrics: Vec<(String, Metric)> = Vec::new();
    for record in iter: pb.metrics.into_iter()
        invariant
            records == pb@.metrics,
            iter.seq().len() == records.len(),
            forall|i: int| 0 <= i < records.len() ==> (#[trigger] iter.seq()[i])@ == records[i],
            metrics.len() == iter.index(),
            forall|i: int|
                0 <= i < metrics.len() ==> decode_sample(#[trigger] records[i]) == Ok::<
                    Sample,
                    MetricFault,
                >(metrics[i].deep_view()),
    {
        let index: usize = metrics.len();
        match record.try_into_sample() {
            Ok(sample) => metrics.push(sample),
            Err(fault) => {
                proof {
                    assert(first_fault_at(records, index as int));
                    let chosen = choose|i: int| first_fault_at(records, i);
                    lemma_first_fault_unique(records, chosen, index as int);
                }
                return Err(Error::Metric { index, fault });
            },
        }
    }
    proof {
        assert forall|i: int| !first_fault_at(records, i) by {
            if 0 <= i < records.len() {
                assert(decode_sample(records[i]) is Ok);
            }
        }
        assert(metrics.deep_view() =~= decode_listing(pb@)->Ok_0);
    }
    Ok(metrics)
}

/// A listing whose names are all non-empty survives the wire unchanged,
/// order included.
pub proof fn lemma_metrics_round_trip(listing: Seq<Sample>)
    requires
        all_named(listing),
    ensures
        decode_listing(listing_to_pb(listing)) == Ok::<Seq<Sample>, Error>(listing),
{
    let pb = listing_to_pb(listing);
    assert forall|i: int| 0 <= i < listing.len() implies decode_sample(pb.metrics[i]) == Ok::<
        Sample,
        MetricFault,
    >(listing[i]) by {
        assert(listing[i].0.len() > 0);
    }
    assert forall|i: int| !first_fault_at(pb.metrics, i) by {
        if 0 <= i < pb.metrics.len() {
            assert(decode_sample(pb.metrics[i]) is Ok);
        }
    }
    assert(decode_listing(pb)->Ok_0 =~= listing);
}

/// A wire listing whose first undecodable record is record `index` fails
/// with the fault of that very record: a missing or empty name there gives
/// the fault about names, a missing value tag under a name the fault about
/// values. The records before it play no part in the failure.
pub proof fn lemma_metrics_failure(pb: PbMetricsView, index: int)
    requires
        0 <= index < pb.metrics.len(),
        index <= usize::MAX,
        forall|j: int| 0 <= j < index ==> decode_sample(#[trigger] pb.metrics[j]) is Ok,
        decode_sample(pb.metrics[index]) is Err,
    ensures
        decode_listing(pb) == Err::<Seq<Sample>, Error>(
            Error::Metric {
                index: index as usize,
                fault: decode_sample(pb.metrics[index])->Err_0,
            },
        ),
        (pb.metrics[index].name is None || pb.metrics[index].name->Some_0.len() == 0)
            ==> decode_sample(pb.metrics[index]) == Err::<Sample, MetricFault>(
            MetricFault::NoName,
        ),
        (pb.metrics[index].name is Some && pb.metrics[index].name->Some_0.len() > 0
            && pb.metrics[index].value is None) ==> decode_sample(pb.metrics[index]) == Err::<
            Sample,
            MetricFault,
        >(MetricFault::NoValue),
{
    assert(first_fault_at(pb.metrics, index));
    let chosen = choose|i: int| first_fault_at(pb.metrics, i);
    lemma_first_fault_unique(pb.metrics, chosen, index);
}

} // verus!
