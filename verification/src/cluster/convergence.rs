//! Joins converge: the tables of a cluster at rest agree.

use vstd::prelude::*;
use crate::cluster::safety::{
    lemma_deliver_connect, lemma_deliver_send, lemma_run_inv, lemma_start_inv,
};
use crate::cluster::measure::{lemma_unlinked, nearer};
use crate::cluster::model::{is_path, joined, leave_free, linked, Cluster, Step};
use crate::membership::{lemma_connected, ActionView};
use crate::node_id::NodeIdView;

verus! {

/// With nothing in flight, a node is connected to every node that a path
/// of joins reaches from it.
proof fn lemma_path_connected(c: Cluster, path: Seq<NodeIdView>, k: int)
    requires
        c.inv(),
        c.wire.len() == 0,
        is_path(c.joins, path),
        c.has(path[0]),
        0 <= k < path.len(),
    ensures
        c.has(path[k]),
        c.conn(path[0], path[k]),
    decreases k,
{
    let a = path[0];
    if k > 0 {
        lemma_path_connected(c, path, k - 1);
        let u = path[k - 1];
        let v = path[k];
        assert(joined(c.joins, u, v));
        // the join between u and v has come true
        if c.joins.contains((u, v)) {
            let j = choose|j: int| 0 <= j < c.joins.len() && c.joins[j] == (u, v);
            assert(c.joins[j] == (u, v));
            assert(c.has(v));
            assert(c.conn(u, v) || c.has_connect(u, v));
            assert(c.conn(u, v));
        } else {
            let j = choose|j: int| 0 <= j < c.joins.len() && c.joins[j] == (v, u);
            assert(c.joins[j] == (v, u));
            assert(c.has(v));
            assert(c.conn(v, u) || c.has_connect(v, u));
            assert(c.conn(v, u));
            assert(c.conn(u, v));
        }
        if a != v && a != u {
            assert(c.conn(u, a));
            assert(c.conn(a, v) || c.pending(a, v));
        }
    }
}

/// Membership convergence. Any number of nodes start with no link between
/// them. Requests to join, deliveries and ticks then happen in any order,
/// and nobody leaves. Once nothing is in flight any more, every node that
/// the requests to join reach from a node is connected in that node's
/// table. So where the joins reach from every node to every other, all
/// tables have the same connected set: all the nodes of the cluster.
pub proof fn theorem_convergence(ids: Seq<NodeIdView>, steps: Seq<Step>)
    requires
        forall|i: int, j: int| 0 <= i < j < ids.len() ==> ids[i] != ids[j],
        leave_free(steps),
        Cluster::start(ids).run(steps).wire.len() == 0,
    ensures
        ({
            let c = Cluster::start(ids).run(steps);
            &&& c.ids == ids
            &&& forall|a: NodeIdView, b: NodeIdView|
                ids.contains(a) && #[trigger] linked(c.joins, a, b) ==> ids.contains(b) && c.conn(
                    a,
                    b,
                )
            &&& (forall|a: NodeIdView, b: NodeIdView|
                ids.contains(a) && ids.contains(b) ==> linked(c.joins, a, b)) ==> forall|
                a: NodeIdView,
                b: NodeIdView,
            |
                ids.contains(a) ==> {
                    &&& #[trigger] c.conn(a, b) <==> ids.contains(b)
                    &&& c.nodes[a].connected().contains(b) <==> ids.contains(b) && b != a
                }
        }),
{
    let c = Cluster::start(ids).run(steps);
    lemma_start_inv(ids);
    lemma_run_inv(Cluster::start(ids), steps);
    assert forall|a: NodeIdView, b: NodeIdView|
        ids.contains(a) && #[trigger] linked(c.joins, a, b) implies ids.contains(b) && c.conn(
        a,
        b,
    ) by {
        let path = choose|path: Seq<NodeIdView>|
            #[trigger] is_path(c.joins, path) && path[0] == a && path.last() == b;
        lemma_path_connected(c, path, path.len() - 1);
    }
    if forall|a: NodeIdView, b: NodeIdView|
        ids.contains(a) && ids.contains(b) ==> linked(c.joins, a, b) {
        assert forall|a: NodeIdView, b: NodeIdView| ids.contains(a) implies {
            &&& #[trigger] c.conn(a, b) <==> ids.contains(b)
            &&& c.nodes[a].connected().contains(b) <==> ids.contains(b) && b != a
        } by {
            if ids.contains(b) {
                assert(linked(c.joins, a, b));
            }
            if c.conn(a, b) {
                assert(c.has(a));
                assert(c.nodes[a].knows(b));
            }
            assert(c.has(a));
            lemma_connected(c.nodes[a], b);
        }
    }
}

/// Every delivery brings a cluster in which nobody ever left nearer to
/// rest, whichever packet is delivered: so no order of deliveries goes on
/// for ever.
pub proof fn lemma_deliver_progress(c: Cluster, i: int)
    requires
        c.inv(),
        0 <= i < c.wire.len(),
    ensures
        c.deliver(i).inv(),
        c.deliver(i).ids == c.ids,
        c.deliver(i).joins == c.joins,
        nearer(c.deliver(i).distance(), c.distance()),
{
    let d = c.deliver(i);
    let n = c.ids.len();
    assert(c.packet_ok(c.wire[i]));
    match c.wire[i].action {
        ActionView::Connect(b) => {
            let a = c.wire[i].from;
            lemma_deliver_connect(c, i);
            lemma_unlinked(c, d, n);
            if c.conn(a, b) {
                assert forall|u: NodeIdView, v: NodeIdView|
                    d.has(u) && d.has(v) && d.conn(u, v) implies #[trigger] c.conn(u, v) by {
                    if u == a && v == b {
                    } else if u == b && v == a {
                        assert(c.conn(a, b));
                        assert(c.conn(b, a));
                    }
                }
                lemma_unlinked(d, c, n);
            } else {
                let ia = choose|k: int| 0 <= k < c.ids.len() && c.ids[k] == a;
                let ib = choose|k: int| 0 <= k < c.ids.len() && c.ids[k] == b;
                assert(!c.conn(c.ids[ia], c.ids[ib]) && d.conn(c.ids[ia], c.ids[ib]));
            }
        },
        ActionView::Send { .. } => {
            lemma_deliver_send(c, i);
            lemma_unlinked(c, d, n);
            lemma_unlinked(d, c, n);
        },
        ActionView::Disconnect(_) => {},
    }
}

/// Running one step and then others is running them all.
proof fn lemma_run_first(c: Cluster, step: Step, steps: Seq<Step>)
    ensures
        c.run(seq![step] + steps) == c.step(step).run(steps),
    decreases steps.len(),
{
    let all = seq![step] + steps;
    if steps.len() == 0 {
        assert(all.drop_last() =~= Seq::<Step>::empty());
        assert(c.run(all.drop_last()) == c);
        assert(all.last() == step);
    } else {
        lemma_run_first(c, step, steps.drop_last());
        assert(all.drop_last() =~= seq![step] + steps.drop_last());
        assert(all.last() == steps.last());
    }
}

/// Running steps and then others is running them all.
proof fn lemma_run_then(c: Cluster, steps: Seq<Step>, more: Seq<Step>)
    ensures
        c.run(steps + more) == c.run(steps).run(more),
    decreases more.len(),
{
    if more.len() == 0 {
        assert(steps + more =~= steps);
    } else {
        lemma_run_then(c, steps, more.drop_last());
        assert((steps + more).drop_last() =~= steps + more.drop_last());
        assert((steps + more).last() == more.last());
    }
}

/// A cluster in which nobody ever left comes to rest: there are
/// deliveries, finitely many, after which nothing is in flight.
pub proof fn lemma_settles(c: Cluster) -> (deliveries: Seq<Step>)
    requires
        c.inv(),
    ensures
        forall|k: int| 0 <= k < deliveries.len() ==> #[trigger] deliveries[k] is Deliver,
        c.run(deliveries).inv(),
        c.run(deliveries).wire.len() == 0,
        c.run(deliveries).ids == c.ids,
        c.run(deliveries).joins == c.joins,
    decreases c.distance().0, c.distance().1,
{
    if c.wire.len() == 0 {
        Seq::empty()
    } else {
        lemma_deliver_progress(c, 0);
        let rest = lemma_settles(c.deliver(0));
        lemma_run_first(c, Step::Deliver(0), rest);
        seq![Step::Deliver(0)] + rest
    }
}

/// Eventual consistency. After any run of requests to join, deliveries
/// and ticks in any order, in which nobody leaves, finitely many further
/// deliveries bring the cluster to rest; and then every node has as
/// connected every node that the accepted requests to join reach from it.
pub proof fn theorem_eventually_consistent(ids: Seq<NodeIdView>, steps: Seq<Step>) -> (deliveries:
    Seq<Step>)
    requires
        forall|i: int, j: int| 0 <= i < j < ids.len() ==> ids[i] != ids[j],
        leave_free(steps),
    ensures
        forall|k: int| 0 <= k < deliveries.len() ==> #[trigger] deliveries[k] is Deliver,
        ({
            let c = Cluster::start(ids).run(steps + deliveries);
            &&& c.wire.len() == 0
            &&& c.joins == Cluster::start(ids).run(steps).joins
            &&& forall|a: NodeIdView, b: NodeIdView|
                ids.contains(a) && #[trigger] linked(c.joins, a, b) ==> ids.contains(b) && c.conn(
                    a,
                    b,
                )
        }),
{
    lemma_start_inv(ids);
    lemma_run_inv(Cluster::start(ids), steps);
    let deliveries = lemma_settles(Cluster::start(ids).run(steps));
    lemma_run_then(Cluster::start(ids), steps, deliveries);
    let all = steps + deliveries;
    assert forall|k: int| 0 <= k < all.len() implies !(#[trigger] all[k] is Leave) by {
        if k < steps.len() {
            assert(all[k] == steps[k]);
        } else {
            assert(all[k] == deliveries[k - steps.len()]);
        }
    }
    theorem_convergence(ids, all);
    deliveries
}

} // verus!
