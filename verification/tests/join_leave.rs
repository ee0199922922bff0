//! Cluster joining and leaving, on a network that lives in memory.

use rabble::{Action, CorrelationId, Delta, Envelope, Membership, Msg, NodeId, Pid, Rpy};

const NUM_NODES: usize = 3;

fn create_node_ids(n: usize) -> Vec<NodeId> {
    (1..n + 1)
        .map(|i| NodeId::new(&format!("node{}", i), &format!("127.0.0.1:{}", 11000 + i)))
        .collect()
}

/// One thing in flight: the node that asked for it, and what it asked.
struct Packet {
    from: usize,
    action: Action,
}

/// Nodes wired together by a queue of packets.
struct Cluster {
    ids: Vec<NodeId>,
    nodes: Vec<Membership>,
    wire: Vec<Packet>,
}

impl Cluster {
    fn start(n: usize) -> Cluster {
        let ids = create_node_ids(n);
        let nodes = ids.iter().map(|id| Membership::new(id.clone())).collect();
        Cluster { ids, nodes, wire: Vec::new() }
    }

    fn index(&self, id: &NodeId) -> usize {
        self.ids.iter().position(|x| x == id).unwrap()
    }

    fn emit(&mut self, from: usize, actions: Vec<Action>) {
        for action in actions {
            self.wire.push(Packet { from, action });
        }
    }

    fn join(&mut self, at: usize, target: usize) {
        let actions = self.nodes[at].join(&self.ids[target]).unwrap();
        self.emit(at, actions);
        self.settle();
    }

    fn leave(&mut self, at: usize, target: usize) {
        let target = self.ids[target].clone();
        let actions = self.nodes[at].leave(&target);
        self.emit(at, actions);
        self.settle();
    }

    fn deliver(&mut self, packet: Packet) {
        let from = packet.from;
        match packet.action {
            Action::Connect(to) => {
                let to = self.index(&to);
                let there = self.ids[to].clone();
                let here = self.ids[from].clone();
                let actions = self.nodes[from].established(&there);
                self.emit(from, actions);
                let actions = self.nodes[to].established(&here);
                self.emit(to, actions);
            }
            Action::Disconnect(to) => {
                let to = self.index(&to);
                let here = self.ids[from].clone();
                self.nodes[to].lost(&here);
            }
            Action::Send { to, delta } => {
                let to = self.index(&to);
                let delta: Delta = delta;
                let actions = self.nodes[to].merge(&delta);
                self.emit(to, actions);
            }
        }
    }

    /// Delivers and ticks until nothing is left to do.
    fn settle(&mut self) {
        loop {
            while !self.wire.is_empty() {
                let packet = self.wire.remove(0);
                self.deliver(packet);
            }
            for i in 0..self.nodes.len() {
                let actions = self.nodes[i].tick();
                self.emit(i, actions);
            }
            if self.wire.is_empty() {
                return;
            }
        }
    }

    fn cluster_status(&self, node: usize, num_connected: usize) -> bool {
        self.nodes[node].connected().len() == num_connected
    }
}

/// Asks `node` for the status of the cluster, as a system thread would, and
/// counts the peers that the answer has as connected.
fn wait_for_cluster_status(
    cluster: &Cluster,
    node: usize,
    test_pid: &Pid,
    num_connected: usize,
) -> bool {
    let correlation_id = CorrelationId::pid(test_pid.clone());
    let envelope: Envelope<Vec<u8>> = cluster.nodes[node].cluster_status(correlation_id.clone());
    if envelope.to != *test_pid || envelope.correlation_id != Some(correlation_id) {
        return false;
    }
    if let Msg::Rpy(Rpy::Members(members)) = envelope.msg {
        let connected: Vec<&NodeId> = members
            .iter()
            .filter(|(id, connected)| *connected && *id != cluster.ids[node])
            .map(|(id, _)| id)
            .collect();
        return connected.len() == num_connected
            && cluster.nodes[node].connected().iter().collect::<Vec<_>>() == connected;
    }
    false
}

#[test]
fn join_leave() {
    let mut cluster = Cluster::start(NUM_NODES);
    let test_pid = Pid {
        name: "test-runner".to_string(),
        group: None,
        node: cluster.ids[0].clone(),
    };

    // join node1 to node2
    // The cluster status of both nodes shows that they are connected
    cluster.join(0, 1);
    assert!(wait_for_cluster_status(&cluster, 0, &test_pid, 1));
    assert!(wait_for_cluster_status(&cluster, 1, &test_pid, 1));

    // Join node1 to node3. This will cause a delta to be sent from node1 to node2. Node2 will
    // connect to node3, since it learns of node3 from node1. Either way
    // all nodes should stabilize as knowing about each other.
    cluster.join(0, 2);
    for node in 0..NUM_NODES {
        assert!(wait_for_cluster_status(&cluster, node, &test_pid, 2));
    }

    // Remove node2 from the cluster. This will cause a delta of the remove to be broadcast to
    // node3. Note that the request is sent to node1, not the node that is leaving.
    cluster.leave(0, 1);
    assert!(wait_for_cluster_status(&cluster, 0, &test_pid, 1));
    assert!(wait_for_cluster_status(&cluster, 2, &test_pid, 1));

    // Remove node1 from the cluster. This request goes to node1.
    cluster.leave(0, 0);
    assert!(wait_for_cluster_status(&cluster, 0, &test_pid, 0));
    assert!(wait_for_cluster_status(&cluster, 2, &test_pid, 0));
}

fn all_connected(cluster: &Cluster, n: usize) -> bool {
    (0..n).all(|a| {
        let mut peers = cluster.nodes[a].connected();
        peers.sort();
        let mut others: Vec<NodeId> =
            (0..n).filter(|b| *b != a).map(|b| cluster.ids[b].clone()).collect();
        others.sort();
        peers == others && cluster.nodes[a].is_connected(&cluster.ids[a])
    })
}

#[test]
fn joins_converge_whatever_their_order() {
    let orders: Vec<Vec<(usize, usize)>> = vec![
        vec![(0, 1), (1, 2), (2, 3), (3, 4)],
        vec![(3, 4), (2, 3), (1, 2), (0, 1)],
        vec![(0, 1), (2, 3), (0, 2), (4, 3)],
        vec![(4, 0), (4, 1), (4, 2), (4, 3)],
        vec![(0, 1), (2, 3), (1, 0), (3, 2), (4, 0), (2, 1)],
    ];
    for joins in orders {
        let mut cluster = Cluster::start(5);
        for (at, target) in joins {
            cluster.join(at, target);
        }
        assert!(all_connected(&cluster, 5));
    }
}

#[test]
fn joins_converge_when_nothing_is_delivered_until_the_end() {
    let mut cluster = Cluster::start(4);
    for (at, target) in vec![(0usize, 1usize), (2, 3), (1, 2)] {
        let actions = cluster.nodes[at].join(&cluster.ids[target]).unwrap();
        cluster.emit(at, actions);
    }
    assert_eq!(cluster.wire.len(), 3);
    // last in, first out
    while let Some(packet) = cluster.wire.pop() {
        cluster.deliver(packet);
    }
    assert!(all_connected(&cluster, 4));
}

#[test]
fn two_islands_stay_apart() {
    let mut cluster = Cluster::start(4);
    cluster.join(0, 1);
    cluster.join(2, 3);
    assert_eq!(cluster.nodes[0].connected(), vec![cluster.ids[1].clone()]);
    assert_eq!(cluster.nodes[3].connected(), vec![cluster.ids[2].clone()]);
    assert!(!cluster.nodes[0].knows(&cluster.ids[2]));
}

#[test]
fn a_leave_reaches_the_connected_peers() {
    let mut cluster = Cluster::start(4);
    cluster.join(0, 1);
    cluster.join(0, 2);
    // the fourth node is on its own and hears of nothing
    let gone = cluster.ids[1].clone();
    let actions = cluster.nodes[0].leave(&gone);
    assert_eq!(actions.len(), 1);
    cluster.emit(0, actions);
    // one round of gossip
    let round: Vec<Packet> = cluster.wire.drain(..).collect();
    for packet in round {
        cluster.deliver(packet);
    }
    assert!(!cluster.nodes[0].is_connected(&gone));
    assert!(!cluster.nodes[2].is_connected(&gone));
    assert_eq!(cluster.nodes[3].members(), vec![(cluster.ids[3].clone(), true)]);
    // the node that left was told nothing and still has its stale rows
    assert!(cluster.nodes[1].is_connected(&cluster.ids[0]));
    assert!(cluster.nodes[1].is_connected(&cluster.ids[2]));
    // until the ticks of the others close its connections
    cluster.settle();
    assert!(cluster.nodes[1].connected().is_empty());
    assert!(cluster.cluster_status(0, 1));
    assert!(cluster.cluster_status(2, 1));
}
