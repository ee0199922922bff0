//! A leave reaches the peers of the node that was asked.

use vstd::prelude::*;
use crate::cluster::model::{deliveries, packets, Cluster, Packet, Step};
use crate::membership::{lemma_leave, lemma_merge_removal, ActionView, DeltaView};
use crate::node_id::NodeIdView;

verus! {

/// The removal of `target`, as `at` sends it to `to`.
pub open spec fn removal(at: NodeIdView, to: NodeIdView, target: NodeIdView) -> Packet {
    Packet {
        from: at,
        action: ActionView::Send { to, delta: DeltaView { node: target, connected: false } },
    }
}

/// The state of a round of removals after `j` of its deliveries.
proof fn lemma_removals_delivered(
    c: Cluster,
    first: Cluster,
    at: NodeIdView,
    target: NodeIdView,
    j: nat,
)
    requires
        c.sane(),
        first.sane(),
        first.ids == c.ids,
        c.has(at),
        forall|q: NodeIdView| c.has(q) && q != at ==> first.nodes[q] == c.nodes[q],
        j <= first.wire.len(),
        forall|m: int|
            0 <= m < first.wire.len() ==> {
                &&& (#[trigger] first.wire[m]).action is Send
                &&& first.wire[m] == removal(at, first.wire[m].action->to, target)
                &&& first.wire[m].action->to != at
                &&& first.wire[m].action->to != target
            },
    ensures
        ({
            let d = first.run(deliveries(j));
            &&& d.sane()
            &&& d.ids == c.ids
            &&& d.wire.len() >= first.wire.len() - j
            &&& forall|m: int| j <= m < first.wire.len() ==> d.wire[m - j] == first.wire[m]
            &&& d.nodes[at] == first.nodes[at]
            &&& forall|m: int|
                0 <= m < j && c.has((#[trigger] first.wire[m]).action->to) ==> !d.conn(
                    first.wire[m].action->to,
                    target,
                )
            &&& forall|q: NodeIdView|
                c.has(q) && q != at && (forall|m: int|
                    0 <= m < j ==> (#[trigger] first.wire[m]).action->to != q) ==> d.nodes[q]
                    == c.nodes[q]
        }),
    decreases j,
{
    if j == 0 {
        assert(deliveries(0) =~= Seq::<Step>::empty());
    } else {
        let before = first.run(deliveries((j - 1) as nat));
        lemma_removals_delivered(c, first, at, target, (j - 1) as nat);
        assert(deliveries(j).drop_last() =~= deliveries((j - 1) as nat));
        assert(deliveries(j).last() == Step::Deliver(0));
        let d = first.run(deliveries(j));
        assert(d == before.deliver(0));
        let packet = before.wire[0];
        assert(packet == first.wire[j - 1]);
        let to = packet.action->to;
        assert(packet == removal(at, to, target));
        if before.has(to) {
            let table = before.nodes[to];
            lemma_merge_removal(table, target);
            let asked = table.merge(DeltaView { node: target, connected: false }).1;
            assert(d.wire == before.wire.remove(0) + packets(to, asked));
            assert(d.sane()) by {
                assert forall|a: NodeIdView| #[trigger] d.has(a) implies {
                    &&& d.nodes.dom().contains(a)
                    &&& d.nodes[a].wf()
                    &&& d.nodes[a].me == a
                } by {
                    assert(before.has(a));
                    if a != to {
                        assert(d.nodes[a] == before.nodes[a]);
                    }
                }
            }
            assert forall|m: int|
                0 <= m < j && c.has((#[trigger] first.wire[m]).action->to) implies !d.conn(
                first.wire[m].action->to,
                target,
            ) by {
                let p = first.wire[m].action->to;
                if p != to {
                    assert(d.nodes[p] == before.nodes[p]);
                    assert(m < j - 1);
                }
            }
            assert forall|q: NodeIdView|
                c.has(q) && q != at && (forall|m: int|
                    0 <= m < j ==> (#[trigger] first.wire[m]).action->to != q) implies d.nodes[q]
                == c.nodes[q] by {
                assert(first.wire[j - 1].action->to != q);
                assert(d.nodes[q] == before.nodes[q]);
            }
        } else {
            assert(d.wire == before.wire.remove(0));
            assert(d.nodes == before.nodes);
            assert(d.sane()) by {
                assert forall|a: NodeIdView| #[trigger] d.has(a) implies {
                    &&& d.nodes.dom().contains(a)
                    &&& d.nodes[a].wf()
                    &&& d.nodes[a].me == a
                } by {
                    assert(before.has(a));
                }
            }
            assert forall|m: int|
                0 <= m < j && c.has((#[trigger] first.wire[m]).action->to) implies !d.conn(
                first.wire[m].action->to,
                target,
            ) by {
                assert(m < j - 1);
            }
        }
        assert forall|m: int| j <= m < first.wire.len() implies d.wire[m - j]
            == first.wire[m] by {
            assert(before.wire[m - (j - 1)] == first.wire[m]);
        }
    }
}

/// Leave propagation. In a cluster at rest the node `at` is asked that
/// `target` leave. After one round of gossip, `target` no longer counts as
/// connected at `at` nor at any peer that `at` had as connected. A node
/// that `at` did not have as connected is sent nothing in that round and
/// keeps its table as it was, stale rows included.
pub proof fn theorem_leave_propagates(c: Cluster, at: NodeIdView, target: NodeIdView)
    requires
        c.sane(),
        c.wire.len() == 0,
        c.has(at),
    ensures
        ({
            let after = c.leave(at, target).round();
            &&& !after.conn(at, target)
            &&& forall|peer: NodeIdView|
                c.has(peer) && #[trigger] c.conn(at, peer) && peer != at && peer != target
                    ==> !after.conn(peer, target)
            &&& forall|other: NodeIdView|
                c.has(other) && other != at && !(#[trigger] c.conn(at, other)) ==> after.nodes[other]
                    == c.nodes[other]
        }),
{
    let first = c.leave(at, target);
    let table = c.nodes[at];
    lemma_leave(table, target);
    let (next, asked) = table.leave(target);
    assert(first.wire =~= packets(at, asked));
    assert(first.sane()) by {
        assert forall|a: NodeIdView| #[trigger] first.has(a) implies {
            &&& first.nodes.dom().contains(a)
            &&& first.nodes[a].wf()
            &&& first.nodes[a].me == a
        } by {
            assert(c.has(a));
        }
    }
    assert forall|m: int| 0 <= m < first.wire.len() implies {
        &&& (#[trigger] first.wire[m]).action is Send
        &&& first.wire[m] == removal(at, first.wire[m].action->to, target)
        &&& first.wire[m].action->to != at
        &&& first.wire[m].action->to != target
    } by {
        assert(first.wire[m] == Packet { from: at, action: asked[m] });
    }
    let n = first.wire.len();
    lemma_removals_delivered(c, first, at, target, n);
    let after = first.round();
    assert forall|peer: NodeIdView|
        c.has(peer) && #[trigger] c.conn(at, peer) && peer != at && peer != target
        implies !after.conn(peer, target) by {
        let sent = ActionView::Send {
            to: peer,
            delta: DeltaView { node: target, connected: false },
        };
        assert(asked.contains(sent));
        let m = choose|m: int| 0 <= m < asked.len() && asked[m] == sent;
        assert(first.wire[m].action->to == peer);
    }
    assert forall|other: NodeIdView|
        c.has(other) && other != at && !(#[trigger] c.conn(at, other)) implies after.nodes[other]
        == c.nodes[other] by {
        assert forall|m: int| 0 <= m < n implies (#[trigger] first.wire[m]).action->to
            != other by {
            assert(first.wire[m] == Packet { from: at, action: asked[m] });
            assert(table.is_connected(asked[m]->to));
        }
    }
}

} // verus!
