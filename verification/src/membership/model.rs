//! What a membership table is, and what each event makes of it.

use vstd::prelude::*;
use crate::correlation_id::CorrelationIdView;
use crate::envelope::EnvelopeView;
use crate::errors::Error;
use crate::msg::{MsgView, Row, RpyView};
use crate::node_id::NodeIdView;
use crate::pid::PidView;

verus! {

/// What a `Delta` is.
pub struct DeltaView {
    pub node: NodeIdView,
    pub connected: bool,
}

/// What an `Action` is.
pub enum ActionView {
    Connect(NodeIdView),
    Disconnect(NodeIdView),
    Send { to: NodeIdView, delta: DeltaView },
}

/// One row of the table: a node, whether it counts as connected, and
/// whether a connection to it is open. The two differ between a leave and
/// the tick that closes the connection.
pub struct MemberView {
    pub node: NodeIdView,
    pub connected: bool,
    pub linked: bool,
}

/// A change to the row of one node.
#[derive(Clone, Copy, PartialEq, Eq, Structural)]
pub enum Change {
    /// A connection came up: connected and linked.
    Link,
    /// A connection went down: neither connected nor linked.
    Unlink,
    /// The node left: not connected; its connection stays until a tick.
    Drop,
    /// The node was heard of: a row for it, if there was none.
    Learn,
}

impl Change {
    /// The row after the change.
    pub open spec fn apply(self, row: MemberView) -> MemberView {
        match self {
            Change::Link => MemberView { connected: true, linked: true, ..row },
            Change::Unlink => MemberView { connected: false, linked: false, ..row },
            Change::Drop => MemberView { connected: false, ..row },
            Change::Learn => row,
        }
    }

    /// Whether the change makes a row for a node that has none.
    pub open spec fn adds(self) -> bool {
        !(self is Unlink)
    }

    /// The row that the change makes for a node that has none.
    pub open spec fn fresh(self, node: NodeIdView) -> MemberView {
        self.apply(MemberView { node, connected: false, linked: false })
    }
}

/// The nodes of the rows that `keep` holds of, in the order of the rows.
pub open spec fn select(rows: Seq<MemberView>, keep: spec_fn(MemberView) -> bool) -> Seq<
    NodeIdView,
>
    decreases rows.len(),
{
    if rows.len() == 0 {
        Seq::empty()
    } else if keep(rows.last()) {
        select(rows.drop_last(), keep).push(rows.last().node)
    } else {
        select(rows.drop_last(), keep)
    }
}

/// The table of one node.
pub struct MembershipView {
    pub me: NodeIdView,
    pub rows: Seq<MemberView>,
}

impl MembershipView {
    /// The table has a row for `node`.
    pub open spec fn knows(self, node: NodeIdView) -> bool {
        exists|i: int| 0 <= i < self.rows.len() && (#[trigger] self.rows[i]).node == node
    }

    /// The table has `node` as connected.
    pub open spec fn is_connected(self, node: NodeIdView) -> bool {
        exists|i: int|
            0 <= i < self.rows.len() && (#[trigger] self.rows[i]).node == node
                && self.rows[i].connected
    }

    /// The table has an open connection to `node`.
    pub open spec fn is_linked(self, node: NodeIdView) -> bool {
        exists|i: int|
            0 <= i < self.rows.len() && (#[trigger] self.rows[i]).node == node
                && self.rows[i].linked
    }

    /// No node has two rows, and the owner has one.
    pub open spec fn wf(self) -> bool {
        &&& forall|i: int, j: int|
            0 <= i < j < self.rows.len() ==> (#[trigger] self.rows[i]).node != (
            #[trigger] self.rows[j]).node
        &&& self.knows(self.me)
    }

    /// The table of a node that has just started: itself, connected.
    pub open spec fn init(me: NodeIdView) -> MembershipView {
        MembershipView { me, rows: seq![MemberView { node: me, connected: true, linked: false }] }
    }

    /// The table after `change` to the row of `node`.
    pub open spec fn put(self, node: NodeIdView, change: Change) -> MembershipView {
        if self.knows(node) {
            MembershipView {
                rows: Seq::new(
                    self.rows.len(),
                    |i: int|
                        if self.rows[i].node == node {
                            change.apply(self.rows[i])
                        } else {
                            self.rows[i]
                        },
                ),
                ..self
            }
        } else if change.adds() {
            MembershipView { rows: self.rows.push(change.fresh(node)), ..self }
        } else {
            self
        }
    }

    /// The peers that count as connected, in the order of the table: every
    /// connected node but the owner.
    pub open spec fn connected(self) -> Seq<NodeIdView> {
        self.audience(self.me)
    }

    /// The peers that a delta about `subject` is sent to: every connected
    /// node but the owner and the subject.
    pub open spec fn audience(self, subject: NodeIdView) -> Seq<NodeIdView> {
        select(
            self.rows,
            |row: MemberView| row.connected && row.node != self.me && row.node != subject,
        )
    }

    /// The sending of `delta` to each peer of its audience, in order.
    pub open spec fn broadcast(self, delta: DeltaView) -> Seq<ActionView> {
        let audience = self.audience(delta.node);
        Seq::new(audience.len(), |i: int| ActionView::Send { to: audience[i], delta })
    }

    /// The peers whose connection is open though they no longer count as
    /// connected.
    pub open spec fn stale(self) -> Seq<NodeIdView> {
        select(self.rows, |row: MemberView| row.linked && !row.connected)
    }

    /// The address under which the membership of this node answers.
    pub open spec fn pid(self) -> PidView {
        PidView { name: "cluster_server"@, group: Some("rabble"@), node: self.me }
    }

    /// The answer to a query for the status of the cluster: the table as it
    /// is, sent to the process that the token names, with the token.
    pub open spec fn cluster_status<U>(self, id: CorrelationIdView) -> EnvelopeView<U> {
        EnvelopeView {
            to: id.pid,
            from: self.pid(),
            msg: MsgView::Rpy(RpyView::Members(self.status())),
            correlation_id: Some(id),
        }
    }

    /// The table as a status report: each node with its connected flag, in
    /// the order of the table.
    pub open spec fn status(self) -> Seq<Row> {
        Seq::new(self.rows.len(), |i: int| (self.rows[i].node, self.rows[i].connected))
    }

    /// A request to join `target`: a connection is to be opened, unless
    /// the target counts as connected already. A node cannot join itself.
    /// The table changes only when the connection comes up.
    pub open spec fn join(self, target: NodeIdView) -> Result<Seq<ActionView>, Error> {
        if target == self.me {
            Err(Error::JoinSelf)
        } else if self.is_connected(target) {
            Ok(Seq::empty())
        } else {
            Ok(seq![ActionView::Connect(target)])
        }
    }

    /// A connection to `peer` came up. The peer is now connected; if that
    /// is news, every other connected peer is told.
    pub open spec fn established(self, peer: NodeIdView) -> (MembershipView, Seq<ActionView>) {
        if peer == self.me {
            (self, Seq::empty())
        } else {
            let next = self.put(peer, Change::Link);
            if self.is_connected(peer) {
                (next, Seq::empty())
            } else {
                (next, next.broadcast(DeltaView { node: peer, connected: true }))
            }
        }
    }

    /// The connection to `peer` went down. The peer no longer counts as
    /// connected. Nobody is told: the peers see their own connections.
    pub open spec fn lost(self, peer: NodeIdView) -> MembershipView {
        if peer == self.me {
            self
        } else {
            self.put(peer, Change::Unlink)
        }
    }

    /// A request that `target` leave. It no longer counts as connected, and
    /// every peer that still does is told. The connection to it stays open
    /// until the next tick.
    pub open spec fn leave(self, target: NodeIdView) -> (MembershipView, Seq<ActionView>) {
        let next = self.put(target, Change::Drop);
        (next, next.broadcast(DeltaView { node: target, connected: false }))
    }

    /// A delta arrived. One about the owner is ignored: a node decides
    /// about itself. A removal that is news is applied and passed on. An
    /// arrival of a node that is not connected makes the node known and
    /// asks for a connection to it; the table says connected once that
    /// connection is up.
    pub open spec fn merge(self, delta: DeltaView) -> (MembershipView, Seq<ActionView>) {
        if delta.node == self.me {
            (self, Seq::empty())
        } else if delta.connected {
            if self.is_connected(delta.node) {
                (self, Seq::empty())
            } else {
                (self.put(delta.node, Change::Learn), seq![ActionView::Connect(delta.node)])
            }
        } else {
            if self.knows(delta.node) && !self.is_connected(delta.node) {
                (self, Seq::empty())
            } else {
                let next = self.put(delta.node, Change::Drop);
                (next, next.broadcast(delta))
            }
        }
    }

    /// A tick: every connection to a peer that no longer counts as
    /// connected is closed.
    pub open spec fn tick(self) -> (MembershipView, Seq<ActionView>) {
        let stale = self.stale();
        (
            MembershipView {
                rows: Seq::new(
                    self.rows.len(),
                    |i: int|
                        if self.rows[i].linked && !self.rows[i].connected {
                            MemberView { linked: false, ..self.rows[i] }
                        } else {
                            self.rows[i]
                        },
                ),
                ..self
            },
            Seq::new(stale.len(), |i: int| ActionView::Disconnect(stale[i])),
        )
    }

    /// No connection is open to a node that does not count as connected.
    pub open spec fn tidy(self) -> bool {
        forall|i: int|
            0 <= i < self.rows.len() && (#[trigger] self.rows[i]).linked ==> self.rows[i].connected
    }

    /// Every node of the table is one of `ids`.
    pub open spec fn within(self, ids: Seq<NodeIdView>) -> bool {
        forall|node: NodeIdView| #[trigger] self.knows(node) ==> ids.contains(node)
    }
}

} // verus!
