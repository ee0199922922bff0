//! Tokens, replies, timers and the way of an envelope.

use rabble::{
    ClusterMetrics, CorrelationId, Delivery, Delta, Envelope, Error, Kind, Membership, Metric,
    Metrics, Msg, NodeId, Outstanding, Pid, Registry, ReplyRoute, Req, Rpy, Timer, TimerAction,
    Undeliverable,
};

fn node(n: u8) -> NodeId {
    NodeId::new(&format!("node{}", n), &format!("127.0.0.1:{}", 11000 + n as u16))
}

fn pid(name: &str, n: u8) -> Pid {
    Pid::new(name, None, node(n))
}

#[test]
fn tokens_say_where_the_reply_goes() {
    let by_pid = CorrelationId::pid(pid("a", 1));
    assert_eq!(by_pid.pid, pid("a", 1));
    assert_eq!(by_pid.connection, None);
    assert_eq!(by_pid.request, None);
    assert_eq!(by_pid.route(), ReplyRoute::Mailbox);
    let by_connection = CorrelationId::connection(pid("a", 1), 7);
    assert_eq!(by_connection.connection, Some(7));
    assert_eq!(by_connection.request, None);
    assert_eq!(by_connection.route(), ReplyRoute::Channel(7));
    let by_request = CorrelationId::request(pid("a", 1), 7, 3);
    assert_eq!(by_request.request, Some(3));
    assert_eq!(by_request.route(), ReplyRoute::Channel(7));
    assert_ne!(by_pid, by_connection);
    assert_ne!(by_connection, by_request);
    assert_eq!(by_request, by_request.clone());
    assert_ne!(by_request, CorrelationId::request(pid("a", 1), 7, 4));
    assert_ne!(by_request, CorrelationId::request(pid("b", 1), 7, 3));
}

#[test]
fn a_reply_carries_the_token_of_its_request() {
    let id = CorrelationId::request(pid("asker", 1), 2, 5);
    let request: Envelope<Vec<u8>> =
        Envelope::new(pid("server", 2), pid("asker", 1), Msg::Req(Req::GetMetrics), Some(id.clone()));
    let answer = request.reply(Rpy::Metrics(vec![])).unwrap();
    assert_eq!(answer.to, pid("asker", 1));
    assert_eq!(answer.from, pid("server", 2));
    assert_eq!(answer.msg, Msg::Rpy(Rpy::Metrics(vec![])));
    assert_eq!(answer.correlation_id, Some(id));

    // the reply goes to the process of the token, not to the sender
    let id = CorrelationId::pid(pid("collector", 3));
    let request: Envelope<Vec<u8>> =
        Envelope::new(pid("server", 2), pid("asker", 1), Msg::Req(Req::GetMetrics), Some(id.clone()));
    let answer = request.reply(Rpy::Error("no such process".to_string())).unwrap();
    assert_eq!(answer.to, pid("collector", 3));
    assert_eq!(answer.correlation_id, Some(id));

    let untracked: Envelope<Vec<u8>> =
        Envelope::new(pid("server", 2), pid("asker", 1), Msg::Req(Req::Shutdown), None);
    assert_eq!(untracked.reply(Rpy::Timeout), None);
}

#[test]
fn concurrent_requests_get_their_own_replies() {
    const K: usize = 16;
    let asker = pid("asker", 1);
    let server = pid("server", 2);
    let mut waiting = Outstanding::new(asker.clone(), 9);
    let mut metrics = ClusterMetrics::new();

    let mut requests: Vec<Envelope<Vec<u8>>> = Vec::new();
    for _ in 0..K {
        let id = waiting.issue().unwrap();
        requests.push(Envelope::new(server.clone(), asker.clone(), Msg::Req(Req::GetMetrics), Some(id)));
    }
    assert_eq!(waiting.len(), K);
    for i in 0..K {
        for j in 0..i {
            assert_ne!(requests[i].correlation_id, requests[j].correlation_id);
        }
    }

    // the server answers them last first, each with another count
    let mut replies = Vec::new();
    let mut sent = Vec::new();
    for (n, request) in requests.iter().enumerate().rev() {
        metrics.joined();
        sent.push((n, metrics.data()));
        replies.push((n, request.clone().reply(Rpy::metrics(&metrics)).unwrap()));
    }
    for ((n, reply), (m, data)) in replies.into_iter().zip(sent) {
        let id = reply.correlation_id.clone().unwrap();
        assert_eq!(n, m);
        assert_eq!(Some(id.clone()), requests[n].correlation_id);
        assert_eq!(id.request, Some(n as u64));
        assert_eq!(data[0], ("joins".to_string(), Metric::Counter((K - n) as u64)));
        assert_eq!(reply.msg, Msg::Rpy(Rpy::Metrics(data)));
        assert!(waiting.settle(&id));
        // a second reply for the same request is an anomaly, not an error
        assert!(!waiting.settle(&id));
    }
    assert_eq!(waiting.len(), 0);
}

#[test]
fn foreign_replies_are_refused() {
    let mut waiting = Outstanding::new(pid("asker", 1), 9);
    let id = waiting.issue().unwrap();
    assert_eq!(id, CorrelationId::request(pid("asker", 1), 9, 0));
    assert!(!waiting.settle(&CorrelationId::request(pid("asker", 1), 9, 1)));
    assert!(!waiting.settle(&CorrelationId::request(pid("asker", 1), 8, 0)));
    assert!(!waiting.settle(&CorrelationId::request(pid("other", 1), 9, 0)));
    assert!(!waiting.settle(&CorrelationId::connection(pid("asker", 1), 9)));
    assert!(!waiting.settle(&CorrelationId::pid(pid("asker", 1))));
    assert_eq!(waiting.len(), 1);
    assert!(waiting.settle(&id));
    // a number is never issued twice
    assert_eq!(waiting.issue().unwrap().request, Some(1));
    assert_eq!(Error::CorrelationExhausted.description(), "No correlation id left");
    assert!(!Error::CorrelationExhausted.is_decode());
}

fn start(ms: u64, id: Option<CorrelationId>) -> Envelope<Vec<u8>> {
    Envelope::new(pid("worker", 1), pid("asker", 2), Msg::Req(Req::StartTimer(ms)), id)
}

fn cancel() -> Envelope<Vec<u8>> {
    Envelope::new(pid("worker", 1), pid("asker", 2), Msg::Req(Req::CancelTimer), None)
}

#[test]
fn a_started_timer_fires_once() {
    let id = CorrelationId::pid(pid("asker", 2));
    let mut timer = Timer::new();
    assert!(!timer.is_armed());
    assert_eq!(timer.handle(&start(50, Some(id.clone()))), TimerAction::Schedule(50));
    assert!(timer.is_armed());
    let timeout: Envelope<Vec<u8>> = timer.fire().unwrap();
    assert_eq!(timeout.to, pid("asker", 2));
    assert_eq!(timeout.from, pid("worker", 1));
    assert_eq!(timeout.msg, Msg::Rpy(Rpy::Timeout));
    assert_eq!(timeout.correlation_id, Some(id.clone()));
    assert_eq!(Some(timeout), start(50, Some(id)).reply(Rpy::Timeout));
    assert!(!timer.is_armed());
    assert_eq!(timer.fire::<Vec<u8>>(), None);
}

#[test]
fn a_cancelled_timer_does_not_fire() {
    let id = CorrelationId::pid(pid("asker", 2));
    let mut timer = Timer::new();
    timer.handle(&start(50, Some(id)));
    assert_eq!(timer.handle(&cancel()), TimerAction::Unschedule);
    assert_eq!(timer.fire::<Vec<u8>>(), None);
    // cancelling what is not armed does nothing
    assert_eq!(timer.handle(&cancel()), TimerAction::Idle);
}

#[test]
fn cancelling_after_the_timeout_changes_nothing() {
    let id = CorrelationId::pid(pid("asker", 2));
    let mut timer = Timer::new();
    timer.handle(&start(50, Some(id)));
    assert!(timer.fire::<Vec<u8>>().is_some());
    assert_eq!(timer.handle(&cancel()), TimerAction::Idle);
    assert!(!timer.is_armed());
}

#[test]
fn a_timer_without_token_is_not_armed() {
    let mut timer = Timer::new();
    assert_eq!(timer.handle(&start(50, None)), TimerAction::Idle);
    assert!(!timer.is_armed());
    let other: Envelope<Vec<u8>> =
        Envelope::new(pid("worker", 1), pid("asker", 2), Msg::User(vec![1]), None);
    assert_eq!(timer.handle(&other), TimerAction::Idle);
    // a second start replaces the first
    let first = CorrelationId::request(pid("asker", 2), 1, 1);
    let second = CorrelationId::request(pid("asker", 2), 1, 2);
    timer.handle(&start(10, Some(first)));
    assert_eq!(timer.handle(&start(20, Some(second.clone()))), TimerAction::Schedule(20));
    assert_eq!(timer.fire::<Vec<u8>>().unwrap().correlation_id, Some(second));
    assert_eq!(timer.fire::<Vec<u8>>(), None);
}

fn request(to: Pid, id: Option<CorrelationId>) -> Envelope<Vec<u8>> {
    Envelope::new(to, pid("asker", 1), Msg::Req(Req::GetMetrics), id)
}

fn three_nodes() -> Membership {
    let mut table = Membership::new(node(1));
    table.established(&node(2));
    table.merge(&Delta { node: node(3), connected: true });
    table
}

#[test]
fn registered_processes_are_handed_over_here() {
    let table = three_nodes();
    let mut registry = Registry::new();
    registry.register(&pid("actor", 1), Kind::Actor);
    registry.register(&pid("thread", 1), Kind::SystemThread);
    assert_eq!(registry.lookup(&pid("actor", 1)), Some(Kind::Actor));
    assert_eq!(registry.lookup(&pid("thread", 1)), Some(Kind::SystemThread));
    assert_eq!(registry.lookup(&pid("nobody", 1)), None);

    let e = request(pid("actor", 1), None);
    assert_eq!(registry.dispatch(&table, e.clone()), Delivery::Mailbox(e));
    let e = request(pid("thread", 1), None);
    assert_eq!(registry.dispatch(&table, e.clone()), Delivery::Channel(e));

    // registering again changes the kind and adds nothing
    registry.register(&pid("actor", 1), Kind::SystemThread);
    assert_eq!(registry.lookup(&pid("actor", 1)), Some(Kind::SystemThread));
    assert_eq!(registry.lookup(&pid("thread", 1)), Some(Kind::SystemThread));
}

#[test]
fn a_system_thread_may_carry_the_pid_of_another_node() {
    let table = three_nodes();
    let mut registry = Registry::new();
    let runner = Pid::new("test-runner", None, node(2));
    registry.register(&runner, Kind::SystemThread);
    let e = request(runner.clone(), None);
    assert_eq!(registry.dispatch(&table, e.clone()), Delivery::Channel(e));
    // its namesake on the same node is sent on
    let e = request(pid("other", 2), None);
    assert_eq!(registry.dispatch(&table, e.clone()), Delivery::Forward(e));
}

#[test]
fn undeliverable_requests_are_answered_with_an_error() {
    let table = three_nodes();
    let registry = Registry::new();
    let id = CorrelationId::request(pid("asker", 1), 1, 1);

    // no such process here
    let e = request(pid("nobody", 1), Some(id.clone()));
    let expected = Envelope::new(
        pid("asker", 1),
        pid("nobody", 1),
        Msg::Rpy(Rpy::Error("No such process".to_string())),
        Some(id.clone()),
    );
    assert_eq!(registry.dispatch(&table, e), Delivery::Bounce(expected.clone()));
    assert_eq!(Undeliverable::NoSuchProcess.description(), "No such process");

    // a node that is known but not connected, and one that is unknown
    for n in [3u8, 4u8] {
        let e = request(pid("worker", n), Some(id.clone()));
        let expected = Envelope::new(
            pid("asker", 1),
            pid("worker", n),
            Msg::Rpy(Rpy::Error("Node not connected".to_string())),
            Some(id.clone()),
        );
        assert_eq!(registry.dispatch(&table, e), Delivery::Bounce(expected));
    }
    assert_eq!(Undeliverable::NotConnected.description(), "Node not connected");

    // the error itself finds nobody either: it is dropped, not answered
    assert_eq!(registry.dispatch(&table, expected.clone()), Delivery::Drop(expected));
}

#[test]
fn undeliverable_without_token_is_dropped() {
    let table = three_nodes();
    let registry = Registry::new();
    let e = request(pid("nobody", 1), None);
    assert_eq!(registry.dispatch(&table, e.clone()), Delivery::Drop(e));
    let e = request(pid("worker", 4), None);
    assert_eq!(registry.dispatch(&table, e.clone()), Delivery::Drop(e));
    let payload: Envelope<Vec<u8>> =
        Envelope::new(pid("worker", 4), pid("asker", 1), Msg::User(vec![1]), None);
    assert_eq!(registry.dispatch(&table, payload.clone()), Delivery::Drop(payload));
    let payload: Envelope<Vec<u8>> = Envelope::new(
        pid("worker", 4),
        pid("asker", 1),
        Msg::User(vec![1]),
        Some(CorrelationId::pid(pid("asker", 1))),
    );
    assert!(matches!(registry.dispatch(&table, payload), Delivery::Bounce(_)));
}
