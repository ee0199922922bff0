//! Metrics listings and their wire form.

use rabble::metrics;
use rabble::pb_messages::{PbMetric, PbMetricValue, PbMetrics};
use rabble::{ClusterMetrics, Error, Membership, Metric, MetricFault, Metrics, NodeId, Rpy};

fn named(name: &str, value: Option<PbMetricValue>) -> PbMetric {
    PbMetric { name: Some(name.to_string()), value }
}

#[test]
fn metrics_round_trip_keeps_order() {
    let list = vec![
        ("joins".to_string(), Metric::Counter(3)),
        ("depth".to_string(), Metric::Gauge(-7)),
        ("leaves".to_string(), Metric::Counter(u64::MAX)),
        ("floor".to_string(), Metric::Gauge(i64::MIN)),
    ];
    let pb = PbMetrics::from(list.clone());
    assert_eq!(pb.metrics.len(), 4);
    assert_eq!(pb.metrics[0], named("joins", Some(PbMetricValue::Counter(3))));
    assert_eq!(pb.metrics[1], named("depth", Some(PbMetricValue::Gauge(-7))));
    assert_eq!(metrics::try_from(pb), Ok(list));
}

#[test]
fn an_empty_listing_round_trips() {
    let pb = PbMetrics::from(vec![]);
    assert_eq!(pb.metrics.len(), 0);
    assert_eq!(metrics::try_from(pb), Ok(vec![]));
}

#[test]
fn gauge_and_counter_stay_apart() {
    let one = PbMetric::from("x".to_string(), Metric::Gauge(1));
    assert_eq!(one.value, Some(PbMetricValue::Gauge(1)));
    assert_eq!(one.try_into_sample(), Ok(("x".to_string(), Metric::Gauge(1))));
    let two = PbMetric::from("x".to_string(), Metric::Counter(1));
    assert_eq!(two.value, Some(PbMetricValue::Counter(1)));
    assert_eq!(two.try_into_sample(), Ok(("x".to_string(), Metric::Counter(1))));
}

#[test]
fn a_record_without_name_fails() {
    let absent = PbMetric { name: None, value: Some(PbMetricValue::Gauge(2)) };
    assert_eq!(absent.try_into_sample(), Err(MetricFault::NoName));
    let empty = named("", Some(PbMetricValue::Gauge(2)));
    assert_eq!(empty.try_into_sample(), Err(MetricFault::NoName));
    // the name is looked at before the value
    let neither = PbMetric { name: None, value: None };
    assert_eq!(neither.try_into_sample(), Err(MetricFault::NoName));
    assert_eq!(MetricFault::NoName.description(), "All metrics must have names");
}

#[test]
fn a_record_without_value_fails() {
    assert_eq!(named("x", None).try_into_sample(), Err(MetricFault::NoValue));
    assert_eq!(MetricFault::NoValue.description(), "No metric value set");
}

#[test]
fn a_histogram_is_not_dropped_in_silence() {
    assert_eq!(
        named("h", Some(PbMetricValue::Histogram)).try_into_sample(),
        Err(MetricFault::Histogram)
    );
    let pb = PbMetrics {
        metrics: vec![
            named("a", Some(PbMetricValue::Gauge(1))),
            named("h", Some(PbMetricValue::Histogram)),
        ],
    };
    assert_eq!(
        metrics::try_from(pb),
        Err(Error::Metric { index: 1, fault: MetricFault::Histogram })
    );
    assert_eq!(
        MetricFault::Histogram.description(),
        "Histogram metrics are not supported yet"
    );
}

#[test]
fn the_failure_names_its_record() {
    let good = || named("a", Some(PbMetricValue::Gauge(1)));
    let pb = PbMetrics {
        metrics: vec![
            good(),
            PbMetric { name: None, value: Some(PbMetricValue::Gauge(2)) },
            named("c", None),
        ],
    };
    let e = metrics::try_from(pb).unwrap_err();
    assert_eq!(e, Error::Metric { index: 1, fault: MetricFault::NoName });
    assert_eq!(e.description(), "All metrics must have names");
    assert!(e.is_decode());

    let pb = PbMetrics { metrics: vec![good(), good(), named("c", None), named("", None)] };
    let e = metrics::try_from(pb).unwrap_err();
    assert_eq!(e, Error::Metric { index: 2, fault: MetricFault::NoValue });
    assert_eq!(e.description(), "No metric value set");

    let pb = PbMetrics { metrics: vec![named("", None)] };
    assert_eq!(
        metrics::try_from(pb),
        Err(Error::Metric { index: 0, fault: MetricFault::NoName })
    );
    // without the offending record the rest decodes
    let pb = PbMetrics { metrics: vec![good(), good()] };
    assert_eq!(metrics::try_from(pb).unwrap().len(), 2);
}

#[test]
fn a_value_after_the_first_record_is_kept() {
    let pb = PbMetrics {
        metrics: vec![
            named("a", Some(PbMetricValue::Gauge(1))),
            named("b", Some(PbMetricValue::Counter(2))),
        ],
    };
    assert_eq!(
        metrics::try_from(pb),
        Ok(vec![("a".to_string(), Metric::Gauge(1)), ("b".to_string(), Metric::Counter(2))])
    );
}

#[test]
fn cluster_metrics_list_their_fields() {
    let mut m = ClusterMetrics::new();
    assert_eq!(
        m.data(),
        vec![
            ("joins".to_string(), Metric::Counter(0)),
            ("leaves".to_string(), Metric::Counter(0)),
            ("deltas".to_string(), Metric::Counter(0)),
            ("members".to_string(), Metric::Gauge(0)),
            ("connected".to_string(), Metric::Gauge(0)),
        ]
    );
    m.joined();
    m.joined();
    for _ in 0..5 {
        m.merged();
    }
    m.left();
    let me = NodeId::new("n1", "a:1");
    let peer = NodeId::new("n2", "a:2");
    let mut table = Membership::new(me);
    table.established(&peer);
    m.observe(&table);
    let data = m.data();
    assert_eq!(
        data,
        vec![
            ("joins".to_string(), Metric::Counter(2)),
            ("leaves".to_string(), Metric::Counter(1)),
            ("deltas".to_string(), Metric::Counter(5)),
            ("members".to_string(), Metric::Gauge(2)),
            ("connected".to_string(), Metric::Gauge(1)),
        ]
    );
    assert_eq!(Rpy::metrics(&m), Rpy::Metrics(data.clone()));
    assert_eq!(metrics::try_from(PbMetrics::from(data.clone())), Ok(data));
    // a later sample overwrites the gauges and leaves the counters
    table.lost(&peer);
    m.observe(&table);
    assert_eq!(m.data()[4], ("connected".to_string(), Metric::Gauge(0)));
    assert_eq!(m.data()[0], ("joins".to_string(), Metric::Counter(2)));
}
