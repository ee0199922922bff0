//! The cluster as a state, and the steps that change it.

use vstd::prelude::*;
use crate::membership::{ActionView, MembershipView};
use crate::node_id::NodeIdView;

verus! {

/// Something in flight: the node that asked for it, and what it asked.
pub struct Packet {
    pub from: NodeIdView,
    pub action: ActionView,
}

/// One thing that happens in a cluster.
pub enum Step {
    /// The node `at` is asked to join `target`.
    Join { at: NodeIdView, target: NodeIdView },
    /// The node `at` is asked that `target` leave.
    Leave { at: NodeIdView, target: NodeIdView },
    /// What is in flight at this place is carried out.
    Deliver(int),
    /// The node ticks.
    Tick(NodeIdView),
}

/// A cluster: its nodes, the table of each, what is in flight, and the
/// requests to join that were accepted so far.
pub struct Cluster {
    pub ids: Seq<NodeIdView>,
    pub nodes: Map<NodeIdView, MembershipView>,
    pub wire: Seq<Packet>,
    pub joins: Seq<(NodeIdView, NodeIdView)>,
}

/// The actions of one node, put in flight.
pub open spec fn packets(from: NodeIdView, actions: Seq<ActionView>) -> Seq<Packet> {
    Seq::new(actions.len(), |i: int| Packet { from, action: actions[i] })
}

impl Cluster {
    /// The cluster of the nodes `ids`, each just started, with no link
    /// between any two of them.
    pub open spec fn start(ids: Seq<NodeIdView>) -> Cluster {
        Cluster {
            ids,
            nodes: Map::new(
                |id: NodeIdView| ids.contains(id),
                |id: NodeIdView| MembershipView::init(id),
            ),
            wire: Seq::empty(),
            joins: Seq::empty(),
        }
    }

    /// `id` is a node of the cluster.
    pub open spec fn has(self, id: NodeIdView) -> bool {
        self.ids.contains(id)
    }

    /// The table of `a` has `b` as connected.
    pub open spec fn conn(self, a: NodeIdView, b: NodeIdView) -> bool {
        self.nodes[a].is_connected(b)
    }

    /// The node `at` is asked to join `target`. Nothing happens unless both
    /// are nodes of the cluster and the request is accepted.
    pub open spec fn join(self, at: NodeIdView, target: NodeIdView) -> Cluster {
        if self.has(at) && self.has(target) {
            match self.nodes[at].join(target) {
                Ok(actions) => Cluster {
                    wire: self.wire + packets(at, actions),
                    joins: self.joins.push((at, target)),
                    ..self
                },
                Err(_) => self,
            }
        } else {
            self
        }
    }

    /// The node `at` is asked that `target` leave.
    pub open spec fn leave(self, at: NodeIdView, target: NodeIdView) -> Cluster {
        if self.has(at) {
            let (table, actions) = self.nodes[at].leave(target);
            Cluster {
                nodes: self.nodes.insert(at, table),
                wire: self.wire + packets(at, actions),
                ..self
            }
        } else {
            self
        }
    }

    /// The node `at` ticks.
    pub open spec fn tick(self, at: NodeIdView) -> Cluster {
        if self.has(at) {
            let (table, actions) = self.nodes[at].tick();
            Cluster {
                nodes: self.nodes.insert(at, table),
                wire: self.wire + packets(at, actions),
                ..self
            }
        } else {
            self
        }
    }

    /// What is in flight at place `i` is carried out and leaves the wire.
    /// A connection that is opened comes up at both ends, first at the end
    /// that asked; one to a node outside the cluster fails. A connection
    /// that is closed goes down at the other end. A delta is merged by the
    /// node it is sent to. Whatever the nodes ask in turn is put in flight.
    pub open spec fn deliver(self, i: int) -> Cluster {
        if 0 <= i < self.wire.len() {
            let from = self.wire[i].from;
            let rest = self.wire.remove(i);
            match self.wire[i].action {
                ActionView::Connect(to) => {
                    if self.has(from) && self.has(to) {
                        let (here, asked_here) = self.nodes[from].established(to);
                        let nodes = self.nodes.insert(from, here);
                        let (there, asked_there) = nodes[to].established(from);
                        Cluster {
                            nodes: nodes.insert(to, there),
                            wire: rest + packets(from, asked_here) + packets(to, asked_there),
                            ..self
                        }
                    } else if self.has(from) {
                        Cluster {
                            nodes: self.nodes.insert(from, self.nodes[from].lost(to)),
                            wire: rest,
                            ..self
                        }
                    } else {
                        Cluster { wire: rest, ..self }
                    }
                },
                ActionView::Disconnect(to) => {
                    if self.has(to) {
                        Cluster {
                            nodes: self.nodes.insert(to, self.nodes[to].lost(from)),
                            wire: rest,
                            ..self
                        }
                    } else {
                        Cluster { wire: rest, ..self }
                    }
                },
                ActionView::Send { to, delta } => {
                    if self.has(to) {
                        let (table, asked) = self.nodes[to].merge(delta);
                        Cluster {
                            nodes: self.nodes.insert(to, table),
                            wire: rest + packets(to, asked),
                            ..self
                        }
                    } else {
                        Cluster { wire: rest, ..self }
                    }
                },
            }
        } else {
            self
        }
    }

    /// The cluster after one step.
    pub open spec fn step(self, step: Step) -> Cluster {
        match step {
            Step::Join { at, target } => self.join(at, target),
            Step::Leave { at, target } => self.leave(at, target),
            Step::Deliver(i) => self.deliver(i),
            Step::Tick(at) => self.tick(at),
        }
    }

    /// The cluster after the steps, taken in order.
    pub open spec fn run(self, steps: Seq<Step>) -> Cluster
        decreases steps.len(),
    {
        if steps.len() == 0 {
            self
        } else {
            self.run(steps.drop_last()).step(steps.last())
        }
    }

    /// Every node has a table of its own, and the table is well-formed.
    pub open spec fn sane(self) -> bool {
        forall|a: NodeIdView| #[trigger]
            self.has(a) ==> {
                &&& self.nodes.dom().contains(a)
                &&& self.nodes[a].wf()
                &&& self.nodes[a].me == a
            }
    }

    /// One round of gossip: all that is in flight when the round begins is
    /// delivered, in order. What the nodes ask meanwhile stays in flight.
    pub open spec fn round(self) -> Cluster {
        self.run(deliveries(self.wire.len()))
    }
}

/// None of the steps asks a node to leave.
pub open spec fn leave_free(steps: Seq<Step>) -> bool {
    forall|k: int| 0 <= k < steps.len() ==> !(#[trigger] steps[k] is Leave)
}

/// A request to join was accepted between `x` and `y`, whoever asked.
pub open spec fn joined(joins: Seq<(NodeIdView, NodeIdView)>, x: NodeIdView, y: NodeIdView) -> bool {
    joins.contains((x, y)) || joins.contains((y, x))
}

/// Each node of `path` was joined with the next.
pub open spec fn is_path(joins: Seq<(NodeIdView, NodeIdView)>, path: Seq<NodeIdView>) -> bool {
    &&& path.len() > 0
    &&& forall|k: int|
        0 <= k < path.len() - 1 ==> joined(joins, #[trigger] path[k], path[k + 1])
}

/// The requests to join reach from `a` to `b`, over any number of nodes in
/// between.
pub open spec fn linked(joins: Seq<(NodeIdView, NodeIdView)>, a: NodeIdView, b: NodeIdView) -> bool {
    exists|path: Seq<NodeIdView>|
        #[trigger] is_path(joins, path) && path[0] == a && path.last() == b
}

/// `n` deliveries, each of what is first in flight.
pub open spec fn deliveries(n: nat) -> Seq<Step> {
    Seq::new(n, |k: int| Step::Deliver(0))
}

} // verus!
