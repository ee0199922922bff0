//! What holds of every cluster in which nobody ever left.

use vstd::prelude::*;
use crate::cluster::measure::{cost, lemma_weight_add, lemma_weight_remove, weight};
use crate::cluster::model::{leave_free, packets, Cluster, Packet, Step};
use crate::membership::{
    lemma_broadcast, lemma_established, lemma_merge_arrival, lemma_tick_tidy, ActionView,
    DeltaView, MembershipView,
};
use crate::node_id::NodeIdView;

verus! {

impl Cluster {
    /// A request by `a` to open a connection to `b` is in flight.
    pub open spec fn has_connect(self, a: NodeIdView, b: NodeIdView) -> bool {
        exists|k: int|
            0 <= k < self.wire.len() && #[trigger] self.wire[k] == (Packet {
                from: a,
                action: ActionView::Connect(b),
            })
    }

    /// The news that `about` arrived is in flight to `to`.
    pub open spec fn has_arrival(self, to: NodeIdView, about: NodeIdView) -> bool {
        exists|k: int|
            0 <= k < self.wire.len() && (#[trigger] self.wire[k]).action == (ActionView::Send {
                to,
                delta: DeltaView { node: about, connected: true },
            })
    }

    /// Something is in flight that will connect `p` and `x`, or make one
    /// of them ask for it.
    pub open spec fn pending(self, p: NodeIdView, x: NodeIdView) -> bool {
        self.has_connect(p, x) || self.has_connect(x, p) || self.has_arrival(p, x)
            || self.has_arrival(x, p)
    }

    /// No node is listed twice, each has a table of its own that is
    /// well-formed and tidy, knows only nodes of the cluster, and has its
    /// owner as connected.
    pub open spec fn nodes_ok(self) -> bool {
        &&& forall|i: int, j: int|
            0 <= i < j < self.ids.len() ==> self.ids[i] != self.ids[j]
        &&& forall|a: NodeIdView| #[trigger]
            self.has(a) ==> {
                &&& self.nodes.dom().contains(a)
                &&& self.nodes[a].wf()
                &&& self.nodes[a].me == a
                &&& self.nodes[a].tidy()
                &&& self.nodes[a].within(self.ids)
                &&& self.nodes[a].is_connected(a)
            }
    }

    /// What may be in flight where nobody ever left: requests to connect
    /// two different nodes of the cluster, and news of arrivals among them.
    pub open spec fn packet_ok(self, packet: Packet) -> bool {
        &&& self.has(packet.from)
        &&& match packet.action {
            ActionView::Connect(to) => self.has(to) && to != packet.from,
            ActionView::Disconnect(_) => false,
            ActionView::Send { to, delta } => self.has(to) && self.has(delta.node)
                && delta.connected,
        }
    }

    /// Everything in flight is something that may be.
    pub open spec fn wire_ok(self) -> bool {
        forall|k: int| 0 <= k < self.wire.len() ==> self.packet_ok(#[trigger] self.wire[k])
    }

    /// Being connected is mutual.
    pub open spec fn mutual(self) -> bool {
        forall|a: NodeIdView, b: NodeIdView|
            self.has(a) && self.has(b) && #[trigger] self.conn(a, b) ==> self.conn(b, a)
    }

    /// Every accepted request to join has come true or is still in flight.
    pub open spec fn joins_ok(self) -> bool {
        forall|k: int|
            0 <= k < self.joins.len() ==> {
                let (a, b) = #[trigger] self.joins[k];
                &&& self.has(a)
                &&& self.has(b)
                &&& (self.conn(a, b) || self.has_connect(a, b))
            }
    }

    /// Two nodes that a third has as connected are connected to each
    /// other, or something is in flight that will see to it.
    pub open spec fn closing(self) -> bool {
        forall|a: NodeIdView, p: NodeIdView, x: NodeIdView|
            self.has(a) && self.has(p) && self.has(x) && p != x && #[trigger] self.conn(a, p)
                && #[trigger] self.conn(a, x) ==> self.conn(p, x) || self.pending(p, x)
    }

    /// What holds of a cluster in which nobody ever left, whatever the
    /// order of requests, deliveries and ticks.
    pub open spec fn inv(self) -> bool {
        &&& self.nodes_ok()
        &&& self.wire_ok()
        &&& self.mutual()
        &&& self.joins_ok()
        &&& self.closing()
    }
}

/// A cluster that has just started is as the invariant says.
pub proof fn lemma_start_inv(ids: Seq<NodeIdView>)
    requires
        forall|i: int, j: int| 0 <= i < j < ids.len() ==> ids[i] != ids[j],
    ensures
        Cluster::start(ids).inv(),
{
    let c = Cluster::start(ids);
    assert forall|a: NodeIdView| #[trigger] c.has(a) implies {
        &&& c.nodes.dom().contains(a)
        &&& c.nodes[a].wf()
        &&& c.nodes[a].me == a
        &&& c.nodes[a].tidy()
        &&& c.nodes[a].within(c.ids)
        &&& c.nodes[a].is_connected(a)
    } by {
        let table = c.nodes[a];
        assert(table == MembershipView::init(a));
        assert(table.rows[0].node == a);
        assert forall|node: NodeIdView| #[trigger] table.knows(node) implies ids.contains(
            node,
        ) by {
            let i = choose|i: int| 0 <= i < table.rows.len() && (#[trigger] table.rows[i]).node == node;
            assert(i == 0);
        }
    }
    assert forall|a: NodeIdView, b: NodeIdView|
        c.has(a) && c.has(b) && #[trigger] c.conn(a, b) implies c.conn(b, a) by {
        lemma_start_conn(ids, a, b);
        lemma_start_conn(ids, b, a);
    }
    assert forall|a: NodeIdView, p: NodeIdView, x: NodeIdView|
        c.has(a) && c.has(p) && c.has(x) && p != x && #[trigger] c.conn(a, p) && #[trigger] c.conn(
            a,
            x,
        ) implies c.conn(p, x) || c.pending(p, x) by {
        lemma_start_conn(ids, a, p);
        lemma_start_conn(ids, a, x);
    }
}

/// In a cluster that has just started, a node has only itself as
/// connected.
proof fn lemma_start_conn(ids: Seq<NodeIdView>, a: NodeIdView, b: NodeIdView)
    requires
        ids.contains(a),
    ensures
        Cluster::start(ids).conn(a, b) == (a == b),
{
    let table = Cluster::start(ids).nodes[a];
    assert(table == MembershipView::init(a));
    assert(table.rows[0].node == a);
    if table.is_connected(b) {
        let i = choose|i: int|
            0 <= i < table.rows.len() && (#[trigger] table.rows[i]).node == b
                && table.rows[i].connected;
        assert(i == 0);
    }
}

/// The packet was in flight at another place than `i`, or is one of
/// `added`.
pub open spec fn stayed_or_added(wire: Seq<Packet>, i: int, added: Seq<Packet>, packet: Packet) -> bool {
    ||| exists|j: int| 0 <= j < wire.len() && j != i && wire[j] == packet
    ||| exists|m: int| 0 <= m < added.len() && added[m] == packet
}

/// What is in flight after one packet left the wire and others were put
/// on it: every other packet that was in flight, and the new ones, and
/// nothing else.
proof fn lemma_rewire(wire: Seq<Packet>, i: int, added: Seq<Packet>)
    requires
        0 <= i < wire.len(),
    ensures
        forall|k: int|
            0 <= k < wire.len() && k != i ==> (wire.remove(i) + added).contains(
                #[trigger] wire[k],
            ),
        forall|m: int|
            0 <= m < added.len() ==> (wire.remove(i) + added).contains(#[trigger] added[m]),
        forall|k: int|
            0 <= k < (wire.remove(i) + added).len() ==> stayed_or_added(
                wire,
                i,
                added,
                #[trigger] (wire.remove(i) + added)[k],
            ),
{
    let next = wire.remove(i) + added;
    assert forall|k: int| 0 <= k < wire.len() && k != i implies next.contains(
        #[trigger] wire[k],
    ) by {
        if k < i {
            assert(next[k] == wire[k]);
        } else {
            assert(next[k - 1] == wire[k]);
        }
    }
    assert forall|m: int| 0 <= m < added.len() implies next.contains(#[trigger] added[m]) by {
        assert(next[wire.len() - 1 + m] == added[m]);
    }
    assert forall|k: int| 0 <= k < next.len() implies stayed_or_added(
        wire,
        i,
        added,
        #[trigger] next[k],
    ) by {
        if k < i {
            assert(wire[k] == next[k]);
        } else if k < wire.len() - 1 {
            assert(wire[k + 1] == next[k]);
        } else {
            assert(added[k - (wire.len() - 1)] == next[k]);
        }
    }
}

/// Two clusters with the same nodes in which every table says the same of
/// who is connected.
pub open spec fn same_links(c: Cluster, d: Cluster) -> bool {
    &&& d.ids == c.ids
    &&& d.joins == c.joins
    &&& forall|u: NodeIdView, v: NodeIdView| c.has(u) ==> #[trigger] d.conn(u, v) == c.conn(u, v)
}

/// The delivery of news of an arrival keeps the invariant.
pub proof fn lemma_deliver_send(c: Cluster, i: int)
    requires
        c.inv(),
        0 <= i < c.wire.len(),
        c.wire[i].action is Send,
    ensures
        c.deliver(i).inv(),
        same_links(c, c.deliver(i)),
        weight(c.deliver(i).wire) < weight(c.wire),
{
    let packet = c.wire[i];
    let to = packet.action->to;
    let delta = packet.action->delta;
    let x = delta.node;
    assert(c.packet_ok(packet));
    assert(delta == DeltaView { node: x, connected: true });
    let table = c.nodes[to];
    assert(c.has(to));
    lemma_merge_arrival(table, x);
    let (next, asked) = table.merge(delta);
    let d = c.deliver(i);
    let added = packets(to, asked);
    lemma_rewire(c.wire, i, added);
    assert(d.wire == c.wire.remove(i) + added);
    assert(weight(d.wire) < weight(c.wire)) by {
        lemma_weight_remove(c.wire, i);
        lemma_weight_add(c.wire.remove(i), added);
        if asked.len() > 0 {
            assert(added.drop_last() =~= Seq::<Packet>::empty());
            assert(weight(added.drop_last()) == 0);
            assert(weight(added) == cost(added.last()));
        } else {
            assert(weight(added) == 0);
        }
    }
    assert forall|u: NodeIdView, v: NodeIdView| c.has(u) implies #[trigger] d.conn(u, v) == c.conn(
        u,
        v,
    ) by {
        if u != to {
            assert(d.nodes[u] == c.nodes[u]);
        }
    }
    assert(d.nodes_ok()) by {
        assert forall|a: NodeIdView| #[trigger] d.has(a) implies {
            &&& d.nodes.dom().contains(a)
            &&& d.nodes[a].wf()
            &&& d.nodes[a].me == a
            &&& d.nodes[a].tidy()
            &&& d.nodes[a].within(d.ids)
            &&& d.nodes[a].is_connected(a)
        } by {
            assert(c.has(a));
            if a == to {
                assert(d.nodes[a] == next);
                assert forall|node: NodeIdView| #[trigger] next.knows(node) implies d.ids.contains(
                    node,
                ) by {
                    if node != x {
                        assert(table.knows(node));
                    }
                }
            } else {
                assert(d.nodes[a] == c.nodes[a]);
            }
        }
    }
    assert(d.wire_ok()) by {
        assert forall|k: int| 0 <= k < d.wire.len() implies d.packet_ok(#[trigger] d.wire[k]) by {
            let p = d.wire[k];
            assert(stayed_or_added(c.wire, i, added, p));
            if exists|j: int| 0 <= j < c.wire.len() && j != i && c.wire[j] == p {
                let j = choose|j: int| 0 <= j < c.wire.len() && j != i && c.wire[j] == p;
                assert(c.packet_ok(c.wire[j]));
            } else {
                let m = choose|m: int| 0 <= m < added.len() && added[m] == p;
                assert(added[m] == Packet { from: to, action: asked[m] });
            }
        }
    }
    lemma_kept_in_flight(c, d, i, added);
    assert(d.joins_ok()) by {
        assert forall|k: int| 0 <= k < d.joins.len() implies {
            let (a, b) = #[trigger] d.joins[k];
            &&& d.has(a)
            &&& d.has(b)
            &&& (d.conn(a, b) || d.has_connect(a, b))
        } by {
            let (a, b) = c.joins[k];
            assert(c.conn(a, b) || c.has_connect(a, b));
        }
    }
    assert(d.closing()) by {
        assert forall|a: NodeIdView, p: NodeIdView, y: NodeIdView|
            d.has(a) && d.has(p) && d.has(y) && p != y && #[trigger] d.conn(a, p)
                && #[trigger] d.conn(a, y) implies d.conn(p, y) || d.pending(p, y) by {
            assert(c.conn(a, p) && c.conn(a, y));
            assert(c.conn(p, y) || c.pending(p, y));
            assert(d.conn(p, y) == c.conn(p, y));
            assert(d.conn(y, p) == c.conn(y, p));
            if !c.conn(p, y) {
                if (p == to && y == x) || (y == to && p == x) {
                    // the news that was delivered made its reader ask for the connection
                    assert(!c.conn(to, x)) by {
                        if c.conn(to, x) {
                            assert(c.conn(x, to));
                        }
                    }
                    assert(asked == seq![ActionView::Connect(x)]);
                    assert(added[0] == Packet { from: to, action: ActionView::Connect(x) });
                    assert(d.wire.contains(added[0]));
                    assert(d.has_connect(to, x));
                }
            }
        }
    }
    assert(d.mutual()) by {
        assert forall|a: NodeIdView, b: NodeIdView|
            d.has(a) && d.has(b) && #[trigger] d.conn(a, b) implies d.conn(b, a) by {
            assert(c.conn(a, b));
            assert(c.conn(b, a));
        }
    }
}

/// What stays in flight when the packet at place `i` leaves the wire and
/// `added` is put on it: every request and every piece of news but the one
/// that left, and all of `added`.
proof fn lemma_kept_in_flight(c: Cluster, d: Cluster, i: int, added: Seq<Packet>)
    requires
        0 <= i < c.wire.len(),
        d.wire == c.wire.remove(i) + added,
    ensures
        forall|u: NodeIdView, v: NodeIdView| #[trigger]
            c.has_connect(u, v) && c.wire[i] != (Packet { from: u, action: ActionView::Connect(v) })
                ==> d.has_connect(u, v),
        forall|u: NodeIdView, v: NodeIdView| #[trigger]
            c.has_arrival(u, v) && c.wire[i].action != (ActionView::Send {
                to: u,
                delta: DeltaView { node: v, connected: true },
            }) ==> d.has_arrival(u, v),
{
    lemma_rewire(c.wire, i, added);
    assert forall|u: NodeIdView, v: NodeIdView| #[trigger]
        c.has_connect(u, v) && c.wire[i] != (Packet { from: u, action: ActionView::Connect(v) })
        implies d.has_connect(u, v) by {
        let k = choose|k: int|
            0 <= k < c.wire.len() && #[trigger] c.wire[k] == (Packet {
                from: u,
                action: ActionView::Connect(v),
            });
        assert(d.wire.contains(c.wire[k]));
    }
    assert forall|u: NodeIdView, v: NodeIdView| #[trigger]
        c.has_arrival(u, v) && c.wire[i].action != (ActionView::Send {
            to: u,
            delta: DeltaView { node: v, connected: true },
        }) implies d.has_arrival(u, v) by {
        let k = choose|k: int|
            0 <= k < c.wire.len() && (#[trigger] c.wire[k]).action == (ActionView::Send {
                to: u,
                delta: DeltaView { node: v, connected: true },
            });
        assert(d.wire.contains(c.wire[k]));
        let j = choose|j: int| 0 <= j < d.wire.len() && d.wire[j] == c.wire[k];
        assert(d.wire[j].action == c.wire[k].action);
    }
}

/// The tables of `d` say of who is connected what those of `c` say, and
/// besides that `a` and `b` are connected to each other.
pub open spec fn linked_up(c: Cluster, d: Cluster, a: NodeIdView, b: NodeIdView) -> bool {
    &&& d.ids == c.ids
    &&& d.joins == c.joins
    &&& forall|u: NodeIdView, v: NodeIdView|
        c.has(u) ==> #[trigger] d.conn(u, v) == (c.conn(u, v) || (u == a && v == b) || (u == b
            && v == a))
}

/// The coming up of a connection keeps the invariant. It links its two
/// ends, and where they were linked before, it puts nothing in flight.
pub proof fn lemma_deliver_connect(c: Cluster, i: int)
    requires
        c.inv(),
        0 <= i < c.wire.len(),
        c.wire[i].action is Connect,
    ensures
        c.deliver(i).inv(),
        linked_up(c, c.deliver(i), c.wire[i].from, c.wire[i].action->Connect_0),
        c.conn(c.wire[i].from, c.wire[i].action->Connect_0) ==> weight(c.deliver(i).wire)
            < weight(c.wire),
        c.has(c.wire[i].from),
        c.has(c.wire[i].action->Connect_0),
{
    let packet = c.wire[i];
    let a = packet.from;
    let b = packet.action->Connect_0;
    assert(c.packet_ok(packet));
    assert(c.has(a) && c.has(b) && a != b);
    let ta = c.nodes[a];
    let tb = c.nodes[b];
    lemma_established(ta, b);
    lemma_established(tb, a);
    let (na, asked_a) = ta.established(b);
    let nodes = c.nodes.insert(a, na);
    assert(nodes[b] == tb);
    let (nb, asked_b) = tb.established(a);
    let d = c.deliver(i);
    let added = packets(a, asked_a) + packets(b, asked_b);
    assert(d.wire =~= c.wire.remove(i) + added);
    lemma_rewire(c.wire, i, added);
    lemma_kept_in_flight(c, d, i, added);
    let was = c.conn(a, b);
    assert(c.conn(b, a) == was) by {
        if c.conn(a, b) {
            assert(c.conn(b, a));
        }
        if c.conn(b, a) {
            assert(c.conn(a, b));
        }
    }
    if was {
        assert(added =~= Seq::<Packet>::empty());
        assert(d.wire =~= c.wire.remove(i));
        lemma_weight_remove(c.wire, i);
    }
    assert forall|u: NodeIdView, v: NodeIdView| c.has(u) implies #[trigger] d.conn(u, v) == (c.conn(
        u,
        v,
    ) || (u == a && v == b) || (u == b && v == a)) by {
        if u == a {
            assert(d.nodes[u] == na);
        } else if u == b {
            assert(d.nodes[u] == nb);
        } else {
            assert(d.nodes[u] == c.nodes[u]);
        }
    }
    assert(d.nodes_ok()) by {
        assert forall|n: NodeIdView| #[trigger] d.has(n) implies {
            &&& d.nodes.dom().contains(n)
            &&& d.nodes[n].wf()
            &&& d.nodes[n].me == n
            &&& d.nodes[n].tidy()
            &&& d.nodes[n].within(d.ids)
            &&& d.nodes[n].is_connected(n)
        } by {
            assert(c.has(n));
            if n == a {
                assert(d.nodes[n] == na);
                assert forall|node: NodeIdView| #[trigger] na.knows(node) implies d.ids.contains(
                    node,
                ) by {
                    if node != b {
                        assert(ta.knows(node));
                    }
                }
            } else if n == b {
                assert(d.nodes[n] == nb);
                assert forall|node: NodeIdView| #[trigger] nb.knows(node) implies d.ids.contains(
                    node,
                ) by {
                    if node != a {
                        assert(tb.knows(node));
                    }
                }
            } else {
                assert(d.nodes[n] == c.nodes[n]);
            }
        }
    }
    // what the two ends put in flight
    if !was {
        lemma_broadcast(na, DeltaView { node: b, connected: true });
        lemma_broadcast(nb, DeltaView { node: a, connected: true });
        assert(asked_a == na.broadcast(DeltaView { node: b, connected: true }));
        assert(asked_b == nb.broadcast(DeltaView { node: a, connected: true }));
    }
    assert(d.wire_ok()) by {
        assert forall|k: int| 0 <= k < d.wire.len() implies d.packet_ok(#[trigger] d.wire[k]) by {
            let p = d.wire[k];
            assert(stayed_or_added(c.wire, i, added, p));
            if exists|j: int| 0 <= j < c.wire.len() && j != i && c.wire[j] == p {
                let j = choose|j: int| 0 <= j < c.wire.len() && j != i && c.wire[j] == p;
                assert(c.packet_ok(c.wire[j]));
            } else {
                let m = choose|m: int| 0 <= m < added.len() && added[m] == p;
                if m < asked_a.len() {
                    assert(added[m] == Packet { from: a, action: asked_a[m] });
                    let to = asked_a[m]->to;
                    assert(na.is_connected(to));
                    assert(ta.is_connected(to));
                    assert(ta.knows(to));
                } else {
                    let m2 = m - asked_a.len();
                    assert(added[m] == Packet { from: b, action: asked_b[m2] });
                    let to = asked_b[m2]->to;
                    assert(nb.is_connected(to));
                    assert(tb.is_connected(to));
                    assert(tb.knows(to));
                }
            }
        }
    }
    assert(d.mutual()) by {
        assert forall|u: NodeIdView, v: NodeIdView|
            d.has(u) && d.has(v) && #[trigger] d.conn(u, v) implies d.conn(v, u) by {
            if c.conn(u, v) {
                assert(c.conn(v, u));
            }
        }
    }
    assert(d.joins_ok()) by {
        assert forall|k: int| 0 <= k < d.joins.len() implies {
            let (u, v) = #[trigger] d.joins[k];
            &&& d.has(u)
            &&& d.has(v)
            &&& (d.conn(u, v) || d.has_connect(u, v))
        } by {
            let (u, v) = c.joins[k];
            assert(c.conn(u, v) || c.has_connect(u, v));
        }
    }
    if !was {
        assert forall|q: NodeIdView| c.conn(a, q) && q != a && q != b implies d.wire.contains(
            Packet {
                from: a,
                action: ActionView::Send { to: q, delta: DeltaView { node: b, connected: true } },
            },
        ) by {
            let action = ActionView::Send {
                to: q,
                delta: DeltaView { node: b, connected: true },
            };
            assert(na.is_connected(q));
            assert(asked_a.contains(action));
            let m = choose|m: int| 0 <= m < asked_a.len() && asked_a[m] == action;
            assert(added[m] == Packet { from: a, action });
        }
        assert forall|q: NodeIdView| c.conn(b, q) && q != a && q != b implies d.wire.contains(
            Packet {
                from: b,
                action: ActionView::Send { to: q, delta: DeltaView { node: a, connected: true } },
            },
        ) by {
            let action = ActionView::Send {
                to: q,
                delta: DeltaView { node: a, connected: true },
            };
            assert(nb.is_connected(q));
            assert(asked_b.contains(action));
            let m = choose|m: int| 0 <= m < asked_b.len() && asked_b[m] == action;
            assert(added[asked_a.len() + m] == Packet { from: b, action });
        }
    }
    assert(d.closing()) by {
        assert forall|n: NodeIdView, p: NodeIdView, y: NodeIdView|
            d.has(n) && d.has(p) && d.has(y) && p != y && #[trigger] d.conn(n, p)
                && #[trigger] d.conn(n, y) implies d.conn(p, y) || d.pending(p, y) by {
            lemma_closing_after_connect(c, d, i, a, b, n, p, y);
        }
    }
}

/// One instance of the closing property after a connection came up.
proof fn lemma_closing_after_connect(
    c: Cluster,
    d: Cluster,
    i: int,
    a: NodeIdView,
    b: NodeIdView,
    n: NodeIdView,
    p: NodeIdView,
    y: NodeIdView,
)
    requires
        c.nodes_ok(),
        c.mutual(),
        c.closing(),
        0 <= i < c.wire.len(),
        c.wire[i] == (Packet { from: a, action: ActionView::Connect(b) }),
        c.has(a),
        c.has(b),
        a != b,
        linked_up(c, d, a, b),
        forall|u: NodeIdView, v: NodeIdView| #[trigger]
            c.has_connect(u, v) && !(u == a && v == b) ==> d.has_connect(u, v),
        forall|u: NodeIdView, v: NodeIdView| #[trigger] c.has_arrival(u, v) ==> d.has_arrival(u, v),
        !c.conn(a, b) ==> forall|q: NodeIdView|
            c.conn(a, q) && q != a && q != b ==> d.wire.contains(
                Packet {
                    from: a,
                    action: ActionView::Send {
                        to: q,
                        delta: DeltaView { node: b, connected: true },
                    },
                },
            ),
        !c.conn(a, b) ==> forall|q: NodeIdView|
            c.conn(b, q) && q != a && q != b ==> d.wire.contains(
                Packet {
                    from: b,
                    action: ActionView::Send {
                        to: q,
                        delta: DeltaView { node: a, connected: true },
                    },
                },
            ),
        d.has(n),
        d.has(p),
        d.has(y),
        p != y,
        d.conn(n, p),
        d.conn(n, y),
    ensures
        d.conn(p, y) || d.pending(p, y),
{
    assert(d.conn(p, y) == (c.conn(p, y) || (p == a && y == b) || (p == b && y == a)));
    if c.conn(n, p) && c.conn(n, y) {
        assert(c.conn(p, y) || c.pending(p, y));
    } else if !c.conn(n, p) {
        // the new link is the one from n to p
        assert((n == a && p == b) || (n == b && p == a));
        assert(!c.conn(a, b)) by {
            if c.conn(a, b) {
                assert(c.conn(b, a));
            }
        }
        if y != n {
            assert(c.conn(n, y));
            if n == a {
                let sent = Packet {
                    from: a,
                    action: ActionView::Send {
                        to: y,
                        delta: DeltaView { node: b, connected: true },
                    },
                };
                assert(d.wire.contains(sent));
                let k = choose|k: int| 0 <= k < d.wire.len() && d.wire[k] == sent;
                assert(d.wire[k].action == sent.action);
                assert(d.has_arrival(y, p));
            } else {
                let sent = Packet {
                    from: b,
                    action: ActionView::Send {
                        to: y,
                        delta: DeltaView { node: a, connected: true },
                    },
                };
                assert(d.wire.contains(sent));
                let k = choose|k: int| 0 <= k < d.wire.len() && d.wire[k] == sent;
                assert(d.wire[k].action == sent.action);
                assert(d.has_arrival(y, p));
            }
        }
    } else {
        // the new link is the one from n to y
        assert((n == a && y == b) || (n == b && y == a));
        assert(!c.conn(a, b)) by {
            if c.conn(a, b) {
                assert(c.conn(b, a));
            }
        }
        if p != n {
            assert(c.conn(n, p));
            if n == a {
                let sent = Packet {
                    from: a,
                    action: ActionView::Send {
                        to: p,
                        delta: DeltaView { node: b, connected: true },
                    },
                };
                assert(d.wire.contains(sent));
                let k = choose|k: int| 0 <= k < d.wire.len() && d.wire[k] == sent;
                assert(d.wire[k].action == sent.action);
                assert(d.has_arrival(p, y));
            } else {
                let sent = Packet {
                    from: b,
                    action: ActionView::Send {
                        to: p,
                        delta: DeltaView { node: a, connected: true },
                    },
                };
                assert(d.wire.contains(sent));
                let k = choose|k: int| 0 <= k < d.wire.len() && d.wire[k] == sent;
                assert(d.wire[k].action == sent.action);
                assert(d.has_arrival(p, y));
            }
        }
    }
}

/// What is in flight when packets are put on the wire: all that was, and
/// the new ones.
proof fn lemma_put_in_flight(c: Cluster, d: Cluster, added: Seq<Packet>)
    requires
        d.wire == c.wire + added,
    ensures
        forall|u: NodeIdView, v: NodeIdView| #[trigger] c.has_connect(u, v) ==> d.has_connect(u, v),
        forall|u: NodeIdView, v: NodeIdView| #[trigger] c.has_arrival(u, v) ==> d.has_arrival(u, v),
        forall|m: int| 0 <= m < added.len() ==> d.wire.contains(#[trigger] added[m]),
{
    assert forall|u: NodeIdView, v: NodeIdView| #[trigger] c.has_connect(u, v) implies d.has_connect(
        u,
        v,
    ) by {
        let k = choose|k: int|
            0 <= k < c.wire.len() && #[trigger] c.wire[k] == (Packet {
                from: u,
                action: ActionView::Connect(v),
            });
        assert(d.wire[k] == c.wire[k]);
    }
    assert forall|u: NodeIdView, v: NodeIdView| #[trigger] c.has_arrival(u, v) implies d.has_arrival(
        u,
        v,
    ) by {
        let k = choose|k: int|
            0 <= k < c.wire.len() && (#[trigger] c.wire[k]).action == (ActionView::Send {
                to: u,
                delta: DeltaView { node: v, connected: true },
            });
        assert(d.wire[k] == c.wire[k]);
    }
    assert forall|m: int| 0 <= m < added.len() implies d.wire.contains(#[trigger] added[m]) by {
        assert(d.wire[c.wire.len() + m] == added[m]);
    }
}

/// A request to join keeps the invariant and changes no table.
proof fn lemma_join(c: Cluster, at: NodeIdView, target: NodeIdView)
    requires
        c.inv(),
    ensures
        c.join(at, target).inv(),
        c.join(at, target).nodes == c.nodes,
        c.join(at, target).ids == c.ids,
{
    let d = c.join(at, target);
    if c.has(at) && c.has(target) && c.nodes[at].join(target) is Ok {
        let actions = c.nodes[at].join(target)->Ok_0;
        let added = packets(at, actions);
        lemma_put_in_flight(c, d, added);
        assert(at != target);
        assert(d.wire_ok()) by {
            assert forall|k: int| 0 <= k < d.wire.len() implies d.packet_ok(
                #[trigger] d.wire[k],
            ) by {
                if k < c.wire.len() {
                    assert(d.wire[k] == c.wire[k]);
                    assert(c.packet_ok(c.wire[k]));
                } else {
                    assert(d.wire[k] == added[k - c.wire.len()]);
                }
            }
        }
        assert(d.nodes_ok()) by {
            assert forall|a: NodeIdView| #[trigger] d.has(a) implies {
                &&& d.nodes.dom().contains(a)
                &&& d.nodes[a].wf()
                &&& d.nodes[a].me == a
                &&& d.nodes[a].tidy()
                &&& d.nodes[a].within(d.ids)
                &&& d.nodes[a].is_connected(a)
            } by {
                assert(c.has(a));
            }
        }
        assert(d.mutual()) by {
            assert forall|a: NodeIdView, b: NodeIdView|
                d.has(a) && d.has(b) && #[trigger] d.conn(a, b) implies d.conn(b, a) by {
                assert(c.conn(a, b));
            }
        }
        assert(d.joins_ok()) by {
            assert forall|k: int| 0 <= k < d.joins.len() implies {
                let (a, b) = #[trigger] d.joins[k];
                &&& d.has(a)
                &&& d.has(b)
                &&& (d.conn(a, b) || d.has_connect(a, b))
            } by {
                if k < c.joins.len() {
                    let (a, b) = c.joins[k];
                    assert(d.joins[k] == c.joins[k]);
                    assert(c.conn(a, b) || c.has_connect(a, b));
                } else {
                    assert(d.joins[k] == (at, target));
                    if !c.conn(at, target) {
                        assert(added[0] == Packet {
                            from: at,
                            action: ActionView::Connect(target),
                        });
                        assert(d.wire.contains(added[0]));
                    }
                }
            }
        }
        assert(d.closing()) by {
            assert forall|a: NodeIdView, p: NodeIdView, x: NodeIdView|
                d.has(a) && d.has(p) && d.has(x) && p != x && #[trigger] d.conn(a, p)
                    && #[trigger] d.conn(a, x) implies d.conn(p, x) || d.pending(p, x) by {
                assert(c.conn(a, p) && c.conn(a, x));
                assert(c.conn(p, x) || c.pending(p, x));
            }
        }
    }
}

/// A tick changes nothing in a cluster in which nobody ever left.
proof fn lemma_tick(c: Cluster, at: NodeIdView)
    requires
        c.inv(),
    ensures
        c.tick(at) == c,
{
    if c.has(at) {
        lemma_tick_tidy(c.nodes[at]);
        let d = c.tick(at);
        assert(d.nodes =~= c.nodes);
        assert(d.wire =~= c.wire);
    }
}

/// A delivery keeps the invariant.
proof fn lemma_deliver(c: Cluster, i: int)
    requires
        c.inv(),
    ensures
        c.deliver(i).inv(),
        c.deliver(i).ids == c.ids,
        c.deliver(i).joins == c.joins,
{
    if 0 <= i < c.wire.len() {
        assert(c.packet_ok(c.wire[i]));
        match c.wire[i].action {
            ActionView::Connect(_) => lemma_deliver_connect(c, i),
            ActionView::Send { .. } => lemma_deliver_send(c, i),
            ActionView::Disconnect(_) => {},
        }
    }
}

/// The invariant of clusters in which nobody leaves: every request to
/// join, every delivery and every tick keeps it.
pub proof fn lemma_step_inv(c: Cluster, step: Step)
    requires
        c.inv(),
        !(step is Leave),
    ensures
        c.step(step).inv(),
        c.step(step).ids == c.ids,
{
    match step {
        Step::Join { at, target } => lemma_join(c, at, target),
        Step::Leave { .. } => {},
        Step::Deliver(i) => lemma_deliver(c, i),
        Step::Tick(at) => lemma_tick(c, at),
    }
}

/// The invariant holds after any run in which nobody leaves.
pub proof fn lemma_run_inv(c: Cluster, steps: Seq<Step>)
    requires
        c.inv(),
        leave_free(steps),
    ensures
        c.run(steps).inv(),
        c.run(steps).ids == c.ids,
    decreases steps.len(),
{
    if steps.len() > 0 {
        let front = steps.drop_last();
        assert forall|k: int| 0 <= k < front.len() implies !(#[trigger] front[k] is Leave) by {
            assert(front[k] == steps[k]);
        }
        lemma_run_inv(c, front);
        assert(!(steps[steps.len() - 1] is Leave));
        lemma_step_inv(c.run(front), steps.last());
    }
}

} // verus!
