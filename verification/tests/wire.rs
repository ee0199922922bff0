//! Messages and envelopes on their way to the wire and back.

use rabble::pb_messages::{
    PbCorrelationId, PbEnvelope, PbMember, PbMembers, PbMetric, PbMetricValue, PbMetrics, PbMsg,
    PbNodeId, PbPid, PbPids,
};
use rabble::{
    CorrelationId, Envelope, Error, Metric, MetricFault, Msg, NodeId, Pid, Req, Rpy, UserMsg,
};

fn node(n: u8) -> NodeId {
    NodeId::new(&format!("node{}", n), &format!("127.0.0.1:{}", 11000 + n as u16))
}

fn pid(name: &str, n: u8) -> Pid {
    Pid::new(name, None, node(n))
}

fn round_trip<T: UserMsg>(msg: Msg<T>) -> Result<Msg<T>, Error> {
    let pb = PbMsg::try_from(msg).unwrap();
    assert_eq!(pb.fields_set(), 1);
    assert_eq!(Msg::<T>::try_from_exact(pb.clone()), Msg::<T>::try_from(pb.clone()));
    Msg::<T>::try_from(pb)
}

#[test]
fn every_request_survives_the_wire() {
    let requests = vec![
        Req::GetMetrics,
        Req::StartTimer(0),
        Req::StartTimer(u64::MAX),
        Req::CancelTimer,
        Req::Shutdown,
        Req::GetProcesses(node(1)),
        Req::GetServices(node(2)),
        Req::GetMembership,
    ];
    for req in requests {
        let msg: Msg<Vec<u8>> = Msg::Req(req);
        assert_eq!(round_trip(msg.clone()), Ok(msg));
    }
}

#[test]
fn every_reply_survives_the_wire() {
    let replies = vec![
        Rpy::Timeout,
        Rpy::Metrics(vec![]),
        Rpy::Metrics(vec![
            ("b".to_string(), Metric::Gauge(i64::MIN)),
            ("a".to_string(), Metric::Counter(7)),
        ]),
        Rpy::Processes(vec![pid("p1", 1), Pid::new("p2", Some("workers"), node(1))]),
        Rpy::Services(vec![pid("s1", 3)]),
        Rpy::Members(vec![(node(1), true), (node(2), false)]),
        Rpy::Error("no such process".to_string()),
        Rpy::Error(String::new()),
    ];
    for rpy in replies {
        let msg: Msg<String> = Msg::Rpy(rpy);
        assert_eq!(round_trip(msg.clone()), Ok(msg));
    }
}

#[test]
fn user_payloads_survive_the_wire() {
    let raw: Msg<Vec<u8>> = Msg::User(vec![0, 255, 7]);
    assert_eq!(round_trip(raw.clone()), Ok(raw));
    let empty: Msg<Vec<u8>> = Msg::User(vec![]);
    assert_eq!(round_trip(empty.clone()), Ok(empty));
    let text: Msg<String> = Msg::User("grüße, 世界".to_string());
    assert_eq!(round_trip(text.clone()), Ok(text));
}

#[test]
fn text_payload_travels_as_utf8() {
    let pb = PbMsg::try_from(Msg::User("é".to_string())).unwrap();
    assert_eq!(pb.user_msg, Some(vec![0xc3, 0xa9]));
    assert_eq!(String::from_bytes(vec![0xc3, 0xa9]), Ok("é".to_string()));
    assert_eq!(String::from_bytes(vec![0xc3]), Err(Error::Payload));
    assert_eq!(String::from_bytes(vec![0xff]), Err(Error::Payload));
    assert_eq!(Vec::<u8>::from_bytes(vec![0xff]), Ok(vec![0xff]));
    assert_eq!(vec![1u8, 2].to_bytes(), Ok(vec![1, 2]));
    assert_eq!("ab".to_string().to_bytes(), Ok(vec![b'a', b'b']));
}

#[test]
fn each_request_sets_its_own_field() {
    let pb = PbMsg::try_from(Msg::<Vec<u8>>::Req(Req::GetMembership)).unwrap();
    assert_eq!(pb.get_membership, Some(true));
    let pb = PbMsg::try_from(Msg::<Vec<u8>>::Req(Req::GetMetrics)).unwrap();
    assert_eq!(pb.get_metrics, Some(true));
    let pb = PbMsg::try_from(Msg::<Vec<u8>>::Req(Req::StartTimer(250))).unwrap();
    assert_eq!(pb.start_timer, Some(250));
    let pb = PbMsg::try_from(Msg::<Vec<u8>>::Req(Req::CancelTimer)).unwrap();
    assert_eq!(pb.cancel_timer, Some(true));
    let pb = PbMsg::try_from(Msg::<Vec<u8>>::Req(Req::Shutdown)).unwrap();
    assert_eq!(pb.shutdown, Some(true));
    let pb = PbMsg::try_from(Msg::<Vec<u8>>::Req(Req::GetProcesses(node(1)))).unwrap();
    assert_eq!(pb.get_processes, Some(PbNodeId::from(node(1))));
    let pb = PbMsg::try_from(Msg::<Vec<u8>>::Req(Req::GetServices(node(2)))).unwrap();
    assert_eq!(pb.get_services, Some(PbNodeId::from(node(2))));
    let pb = PbMsg::try_from(Msg::<Vec<u8>>::Rpy(Rpy::Timeout)).unwrap();
    assert_eq!(pb.timeout, Some(true));
    let pb = PbMsg::try_from(Msg::<Vec<u8>>::Rpy(Rpy::Error("x".to_string()))).unwrap();
    assert_eq!(pb.error, Some("x".to_string()));
}

#[test]
fn unknown_message() {
    assert_eq!(Msg::<Vec<u8>>::try_from(PbMsg::new()), Err(Error::UnknownMessage));
    assert_eq!(Msg::<Vec<u8>>::try_from_exact(PbMsg::new()), Err(Error::UnknownMessage));
    assert_eq!(PbMsg::new().fields_set(), 0);
    assert_eq!(Error::UnknownMessage.description(), "Unknown Message received");
    assert!(Error::UnknownMessage.is_decode());
}

#[test]
fn malformed_payload() {
    let mut pb = PbMsg::new();
    pb.user_msg = Some(vec![0xff, 0xfe]);
    assert_eq!(Msg::<String>::try_from(pb.clone()), Err(Error::Payload));
    assert_eq!(Msg::<Vec<u8>>::try_from(pb), Ok(Msg::User(vec![0xff, 0xfe])));
}

#[test]
fn presence_is_read_in_order() {
    // the user payload wins over everything
    let mut pb = PbMsg::new();
    pb.members = Some(PbMembers { members: vec![] });
    pb.timeout = Some(true);
    pb.get_metrics = Some(true);
    pb.user_msg = Some(vec![1]);
    assert_eq!(pb.fields_set(), 4);
    assert_eq!(Msg::<Vec<u8>>::try_from(pb.clone()), Ok(Msg::User(vec![1])));
    assert_eq!(Msg::<Vec<u8>>::try_from_exact(pb.clone()), Err(Error::AmbiguousMessage));
    // then the requests, membership first
    pb.user_msg = None;
    assert_eq!(Msg::<Vec<u8>>::try_from(pb.clone()), Ok(Msg::Req(Req::GetMetrics)));
    pb.start_timer = Some(5);
    assert_eq!(Msg::<Vec<u8>>::try_from(pb.clone()), Ok(Msg::Req(Req::StartTimer(5))));
    pb.get_membership = Some(false);
    assert_eq!(Msg::<Vec<u8>>::try_from(pb.clone()), Ok(Msg::Req(Req::GetMembership)));
    // then the replies, timeout first
    pb.get_membership = None;
    pb.start_timer = None;
    pb.get_metrics = None;
    assert_eq!(Msg::<Vec<u8>>::try_from(pb.clone()), Ok(Msg::Rpy(Rpy::Timeout)));
    pb.timeout = None;
    assert_eq!(Msg::<Vec<u8>>::try_from_exact(pb), Ok(Msg::Rpy(Rpy::Members(vec![]))));
}

#[test]
fn request_order_is_fixed() {
    let mut pb = PbMsg::new();
    pb.get_services = Some(PbNodeId::from(node(2)));
    assert_eq!(Msg::<Vec<u8>>::try_from(pb.clone()), Ok(Msg::Req(Req::GetServices(node(2)))));
    pb.get_processes = Some(PbNodeId::from(node(1)));
    assert_eq!(Msg::<Vec<u8>>::try_from(pb.clone()), Ok(Msg::Req(Req::GetProcesses(node(1)))));
    pb.shutdown = Some(true);
    assert_eq!(Msg::<Vec<u8>>::try_from(pb.clone()), Ok(Msg::Req(Req::Shutdown)));
    pb.get_metrics = Some(true);
    assert_eq!(Msg::<Vec<u8>>::try_from(pb.clone()), Ok(Msg::Req(Req::GetMetrics)));
    pb.cancel_timer = Some(true);
    assert_eq!(Msg::<Vec<u8>>::try_from(pb.clone()), Ok(Msg::Req(Req::CancelTimer)));
}

#[test]
fn reply_order_is_fixed() {
    let mut pb = PbMsg::new();
    pb.members = Some(PbMembers::from(vec![(node(1), true)]));
    pb.services = Some(PbPids::from(vec![pid("s", 1)]));
    assert_eq!(Msg::<Vec<u8>>::try_from(pb.clone()), Ok(Msg::Rpy(Rpy::Services(vec![pid("s", 1)]))));
    pb.processes = Some(PbPids::from(vec![pid("p", 1)]));
    assert_eq!(
        Msg::<Vec<u8>>::try_from(pb.clone()),
        Ok(Msg::Rpy(Rpy::Processes(vec![pid("p", 1)])))
    );
    pb.metrics = Some(PbMetrics::from(vec![("m".to_string(), Metric::Counter(1))]));
    assert_eq!(
        Msg::<Vec<u8>>::try_from(pb.clone()),
        Ok(Msg::Rpy(Rpy::Metrics(vec![("m".to_string(), Metric::Counter(1))])))
    );
    pb.error = Some("e".to_string());
    assert_eq!(Msg::<Vec<u8>>::try_from(pb), Ok(Msg::Rpy(Rpy::Error("e".to_string()))));
}

#[test]
fn bad_metrics_fail_the_message() {
    let mut pb = PbMsg::new();
    pb.metrics = Some(PbMetrics {
        metrics: vec![
            PbMetric { name: Some("ok".to_string()), value: Some(PbMetricValue::Counter(1)) },
            PbMetric { name: Some("bad".to_string()), value: None },
        ],
    });
    assert_eq!(
        Msg::<Vec<u8>>::try_from(pb),
        Err(Error::Metric { index: 1, fault: MetricFault::NoValue })
    );
}

#[test]
fn absent_fields_read_as_empty() {
    let empty = PbNodeId { name: None, addr: None };
    assert_eq!(NodeId::from(empty), NodeId::new("", ""));
    let half = PbNodeId { name: Some("n".to_string()), addr: None };
    assert_eq!(NodeId::from(half), NodeId::new("n", ""));
    let pb = PbPid { name: None, group: Some("g".to_string()), node: None };
    assert_eq!(Pid::from(pb), Pid::new("", Some("g"), NodeId::new("", "")));
    let members = PbMembers {
        members: vec![
            PbMember { node: None, connected: None },
            PbMember { node: Some(PbNodeId::from(node(1))), connected: Some(true) },
        ],
    };
    assert_eq!(members.into_rows(), vec![(NodeId::new("", ""), false), (node(1), true)]);
}

#[test]
fn pids_keep_their_fields() {
    let p = Pid::new("worker", Some("pool"), node(4));
    let pb = PbPid::from(p.clone());
    assert_eq!(pb.name, Some("worker".to_string()));
    assert_eq!(pb.group, Some("pool".to_string()));
    assert_eq!(pb.node, Some(PbNodeId { name: Some("node4".to_string()), addr: Some("127.0.0.1:11004".to_string()) }));
    assert_eq!(Pid::from(pb), p);
    assert_ne!(p, Pid::new("worker", None, node(4)));
    assert_ne!(p, Pid::new("worker", Some("pool"), node(5)));
    assert_ne!(p, Pid::new("worke", Some("pool"), node(4)));
    assert_eq!(p, p.clone());
    let pids = vec![pid("a", 1), pid("b", 2), pid("a", 1)];
    assert_eq!(Pid::list_from(PbPids::from(pids.clone())), pids);
}

#[test]
fn envelope_round_trip() {
    let e: Envelope<String> = Envelope::new(
        pid("a", 1),
        pid("b", 2),
        Msg::User("héllo".to_string()),
        Some(CorrelationId::request(pid("b", 2), 4, 9)),
    );
    let pb = PbEnvelope::try_from(e.clone()).unwrap();
    assert_eq!(pb.to, Some(PbPid::from(pid("a", 1))));
    assert_eq!(pb.from, Some(PbPid::from(pid("b", 2))));
    assert_eq!(Envelope::<String>::try_from(pb), Ok(e));

    let bare: Envelope<Vec<u8>> =
        Envelope::new(pid("a", 1), pid("b", 2), Msg::Req(Req::Shutdown), None);
    let pb = PbEnvelope::try_from(bare.clone()).unwrap();
    assert_eq!(pb.cid, None);
    assert_eq!(Envelope::<Vec<u8>>::try_from(pb), Ok(bare));

    let by_pid: Envelope<Vec<u8>> = Envelope::new(
        pid("a", 1),
        pid("b", 2),
        Msg::Rpy(Rpy::Members(vec![(node(1), true)])),
        Some(CorrelationId::pid(pid("a", 1))),
    );
    let pb = PbEnvelope::try_from(by_pid.clone()).unwrap();
    assert_eq!(Envelope::<Vec<u8>>::try_from(pb), Ok(by_pid));
}

#[test]
fn malformed_envelopes() {
    let good = PbEnvelope::try_from(Envelope::<Vec<u8>>::new(
        pid("a", 1),
        pid("b", 2),
        Msg::Req(Req::GetMetrics),
        Some(CorrelationId::connection(pid("b", 2), 1)),
    ))
    .unwrap();

    let mut pb = good.clone();
    pb.to = None;
    pb.from = None;
    assert_eq!(Envelope::<Vec<u8>>::try_from(pb), Err(Error::NoDestination));
    let mut pb = good.clone();
    pb.from = None;
    pb.msg = None;
    assert_eq!(Envelope::<Vec<u8>>::try_from(pb), Err(Error::NoSource));
    let mut pb = good.clone();
    pb.msg = None;
    assert_eq!(Envelope::<Vec<u8>>::try_from(pb), Err(Error::NoMessage));
    let mut pb = good.clone();
    pb.msg = Some(PbMsg::new());
    pb.cid = Some(PbCorrelationId { pid: None, connection: None, request: None });
    assert_eq!(Envelope::<Vec<u8>>::try_from(pb), Err(Error::UnknownMessage));
    let mut pb = good.clone();
    pb.cid = Some(PbCorrelationId { pid: None, connection: Some(1), request: None });
    assert_eq!(Envelope::<Vec<u8>>::try_from(pb), Err(Error::NoCorrelationPid));

    assert_eq!(Error::NoDestination.description(), "Envelope without a destination");
    assert_eq!(Error::NoSource.description(), "Envelope without a source");
    assert_eq!(Error::NoMessage.description(), "Envelope without a message");
    assert_eq!(Error::NoCorrelationPid.description(), "Correlation id without a pid");
    assert_eq!(Error::Payload.description(), "Malformed user payload");
    assert_eq!(Error::AmbiguousMessage.description(), "More than one message field set");
}
