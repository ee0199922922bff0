//! The membership table of one node, event by event.

use rabble::{Action, CorrelationId, Delta, Envelope, Error, Membership, Msg, NodeId, Pid, Rpy};

fn node(n: u8) -> NodeId {
    NodeId::new(&format!("node{}", n), &format!("127.0.0.1:{}", 11000 + n as u16))
}

fn arrival(n: u8) -> Delta {
    Delta { node: node(n), connected: true }
}

fn removal(n: u8) -> Delta {
    Delta { node: node(n), connected: false }
}

fn send(to: u8, delta: Delta) -> Action {
    Action::Send { to: node(to), delta }
}

#[test]
fn a_new_table_holds_its_owner() {
    let table = Membership::new(node(1));
    assert_eq!(table.id(), &node(1));
    assert_eq!(table.members(), vec![(node(1), true)]);
    assert_eq!(table.status(), Rpy::Members(vec![(node(1), true)]));
    assert!(table.connected().is_empty());
    assert!(table.knows(&node(1)));
    assert!(table.is_connected(&node(1)));
    assert!(!table.knows(&node(2)));
    assert!(!table.is_connected(&node(2)));
}

#[test]
fn join_asks_for_a_connection() {
    let mut table = Membership::new(node(1));
    assert_eq!(table.join(&node(2)), Ok(vec![Action::Connect(node(2))]));
    // the table changes only when the connection is up
    assert_eq!(table.members(), vec![(node(1), true)]);
    assert_eq!(table.join(&node(1)), Err(Error::JoinSelf));
    assert_eq!(Error::JoinSelf.description(), "A node cannot join itself");
    assert!(!Error::JoinSelf.is_decode());
    table.established(&node(2));
    assert_eq!(table.join(&node(2)), Ok(vec![]));
}

#[test]
fn a_new_connection_is_told_to_the_others() {
    let mut table = Membership::new(node(1));
    assert_eq!(table.established(&node(2)), vec![]);
    assert_eq!(table.established(&node(3)), vec![send(2, arrival(3))]);
    assert_eq!(
        table.established(&node(4)),
        vec![send(2, arrival(4)), send(3, arrival(4))]
    );
    // no news, nothing to tell
    assert_eq!(table.established(&node(3)), vec![]);
    assert_eq!(table.established(&node(1)), vec![]);
    assert_eq!(table.connected(), vec![node(2), node(3), node(4)]);
    assert_eq!(
        table.members(),
        vec![(node(1), true), (node(2), true), (node(3), true), (node(4), true)]
    );
}

#[test]
fn an_arrival_makes_the_node_known_and_asks_for_it() {
    let mut table = Membership::new(node(1));
    table.established(&node(2));
    assert_eq!(table.merge(&arrival(3)), vec![Action::Connect(node(3))]);
    assert_eq!(table.members(), vec![(node(1), true), (node(2), true), (node(3), false)]);
    assert_eq!(table.connected(), vec![node(2)]);
    // told twice before the connection is up: asked twice, known once
    assert_eq!(table.merge(&arrival(3)), vec![Action::Connect(node(3))]);
    assert_eq!(table.members().len(), 3);
    assert_eq!(table.established(&node(3)), vec![send(2, arrival(3))]);
    assert_eq!(table.merge(&arrival(3)), vec![]);
    // a node decides about itself
    assert_eq!(table.merge(&arrival(1)), vec![]);
    assert_eq!(table.merge(&removal(1)), vec![]);
    assert!(table.is_connected(&node(1)));
}

#[test]
fn leave_marks_and_tells_the_rest() {
    let mut table = Membership::new(node(1));
    table.established(&node(2));
    table.established(&node(3));
    table.established(&node(4));
    assert_eq!(table.leave(&node(3)), vec![send(2, removal(3)), send(4, removal(3))]);
    assert_eq!(
        table.members(),
        vec![(node(1), true), (node(2), true), (node(3), false), (node(4), true)]
    );
    assert_eq!(table.connected(), vec![node(2), node(4)]);
    // the connection is closed by the tick, once
    assert_eq!(table.tick(), vec![Action::Disconnect(node(3))]);
    assert_eq!(table.tick(), vec![]);
    // a node that was never known is recorded as gone
    assert_eq!(table.leave(&node(9)), vec![send(2, removal(9)), send(4, removal(9))]);
    assert!(table.knows(&node(9)));
    assert!(!table.is_connected(&node(9)));
    assert_eq!(table.tick(), vec![]);
}

#[test]
fn leaving_oneself() {
    let mut table = Membership::new(node(1));
    table.established(&node(2));
    assert_eq!(table.leave(&node(1)), vec![send(2, removal(1))]);
    assert!(!table.is_connected(&node(1)));
    assert_eq!(table.members(), vec![(node(1), false), (node(2), true)]);
    assert_eq!(table.tick(), vec![]);
    table.lost(&node(2));
    assert!(table.connected().is_empty());
}

#[test]
fn a_removal_is_passed_on_once() {
    let mut table = Membership::new(node(1));
    table.established(&node(2));
    table.established(&node(3));
    assert_eq!(table.merge(&removal(3)), vec![send(2, removal(3))]);
    assert_eq!(table.merge(&removal(3)), vec![]);
    assert_eq!(table.tick(), vec![Action::Disconnect(node(3))]);
    // news of a node never heard of
    assert_eq!(table.merge(&removal(7)), vec![send(2, removal(7))]);
    assert_eq!(table.merge(&removal(7)), vec![]);
    assert_eq!(
        table.members(),
        vec![(node(1), true), (node(2), true), (node(3), false), (node(7), false)]
    );
}

#[test]
fn a_lost_connection_is_not_gossip() {
    let mut table = Membership::new(node(1));
    table.established(&node(2));
    table.established(&node(3));
    table.lost(&node(3));
    assert_eq!(table.connected(), vec![node(2)]);
    assert_eq!(table.tick(), vec![]);
    // losing what was never there, or oneself, changes nothing
    table.lost(&node(8));
    table.lost(&node(1));
    assert_eq!(table.members(), vec![(node(1), true), (node(2), true), (node(3), false)]);
    // a node that comes back is news again
    assert_eq!(table.established(&node(3)), vec![send(2, arrival(3))]);
}

#[test]
fn cluster_status_goes_back_by_the_token() {
    let mut table = Membership::new(node(1));
    table.established(&node(2));
    let runner = Pid::new("test-runner", None, node(1));
    let id = CorrelationId::pid(runner.clone());
    let answer: Envelope<Vec<u8>> = table.cluster_status(id.clone());
    assert_eq!(answer.to, runner);
    assert_eq!(answer.from, Pid::new("cluster_server", Some("rabble"), node(1)));
    assert_eq!(answer.from, table.pid());
    assert_eq!(answer.msg, Msg::Rpy(Rpy::Members(vec![(node(1), true), (node(2), true)])));
    assert_eq!(answer.correlation_id, Some(id));
}
