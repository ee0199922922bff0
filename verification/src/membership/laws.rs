//! What holds of the rules of membership at a single node.

use vstd::prelude::*;
use crate::membership::model::{
    select, ActionView, Change, DeltaView, MemberView, MembershipView,
};
use crate::node_id::NodeIdView;

verus! {

/// `select` of a table with one more row.
pub proof fn lemma_select_push(
    rows: Seq<MemberView>,
    row: MemberView,
    keep: spec_fn(MemberView) -> bool,
)
    ensures
        select(rows.push(row), keep) == if keep(row) {
            select(rows, keep).push(row.node)
        } else {
            select(rows, keep)
        },
{
    assert(rows.push(row).drop_last() =~= rows);
}

/// A node is selected exactly when it has a row that `keep` holds of.
pub proof fn lemma_select_contains(
    rows: Seq<MemberView>,
    keep: spec_fn(MemberView) -> bool,
    node: NodeIdView,
)
    ensures
        select(rows, keep).contains(node) <==> exists|i: int|
            0 <= i < rows.len() && (#[trigger] rows[i]).node == node && keep(rows[i]),
    decreases rows.len(),
{
    if rows.len() > 0 {
        let front = rows.drop_last();
        lemma_select_contains(front, keep, node);
        let chosen = select(front, keep);
        if keep(rows.last()) {
            assert(select(rows, keep) == chosen.push(rows.last().node));
            if select(rows, keep).contains(node) {
                let k = choose|k: int|
                    0 <= k < select(rows, keep).len() && select(rows, keep)[k] == node;
                if k < chosen.len() {
                    assert(chosen[k] == node);
                    assert(chosen.contains(node));
                    let i = choose|i: int|
                        0 <= i < front.len() && (#[trigger] front[i]).node == node && keep(
                            front[i],
                        );
                    assert(rows[i] == front[i]);
                } else {
                    assert(rows[rows.len() - 1].node == node);
                }
            }
            if exists|i: int|
                0 <= i < rows.len() && (#[trigger] rows[i]).node == node && keep(rows[i]) {
                let i = choose|i: int|
                    0 <= i < rows.len() && (#[trigger] rows[i]).node == node && keep(rows[i]);
                if i < front.len() {
                    assert(front[i] == rows[i]);
                    assert(chosen.contains(node));
                    let k = choose|k: int| 0 <= k < chosen.len() && chosen[k] == node;
                    assert(select(rows, keep)[k] == node);
                } else {
                    assert(select(rows, keep)[chosen.len() as int] == node);
                }
            }
        } else {
            if select(rows, keep).contains(node) {
                let i = choose|i: int|
                    0 <= i < front.len() && (#[trigger] front[i]).node == node && keep(
                        front[i],
                    );
                assert(rows[i] == front[i]);
            }
            if exists|i: int|
                0 <= i < rows.len() && (#[trigger] rows[i]).node == node && keep(rows[i]) {
                let i = choose|i: int|
                    0 <= i < rows.len() && (#[trigger] rows[i]).node == node && keep(rows[i]);
                assert(i < front.len());
                assert(front[i] == rows[i]);
            }
        }
    }
}

/// What a change does to a well-formed table: the table stays well-formed
/// and keeps its owner, the row of `node` is as the change says, and every
/// other row is as it was.
pub proof fn lemma_put(table: MembershipView, node: NodeIdView, change: Change)
    requires
        table.wf(),
    ensures
        table.put(node, change).wf(),
        table.put(node, change).me == table.me,
        forall|other: NodeIdView|
            other != node ==> {
                &&& table.put(node, change).knows(other) == table.knows(other)
                &&& table.put(node, change).is_connected(other) == table.is_connected(other)
                &&& table.put(node, change).is_linked(other) == table.is_linked(other)
            },
        table.put(node, change).knows(node) == (table.knows(node) || change.adds()),
        table.put(node, change).is_connected(node) == match change {
            Change::Link => true,
            Change::Unlink => false,
            Change::Drop => false,
            Change::Learn => table.is_connected(node),
        },
        table.put(node, change).is_linked(node) == match change {
            Change::Link => true,
            Change::Unlink => false,
            Change::Drop => table.is_linked(node),
            Change::Learn => table.is_linked(node),
        },
{
    let next = table.put(node, change);
    if table.knows(node) {
        let at = choose|i: int| 0 <= i < table.rows.len() && (#[trigger] table.rows[i]).node == node;
        assert(next.rows.len() == table.rows.len());
        assert forall|i: int| 0 <= i < table.rows.len() implies (#[trigger] next.rows[i]).node
            == table.rows[i].node by {}
        assert(next.rows[at] == change.apply(table.rows[at]));
        let me = choose|i: int|
            0 <= i < table.rows.len() && (#[trigger] table.rows[i]).node == table.me;
        assert(next.rows[me].node == table.me);
        assert forall|other: NodeIdView| other != node implies {
            &&& next.knows(other) == table.knows(other)
            &&& next.is_connected(other) == table.is_connected(other)
            &&& next.is_linked(other) == table.is_linked(other)
        } by {
            lemma_same_rows(table, next, other);
        }
        assert(next.knows(node));
        if table.is_connected(node) {
            let i = choose|i: int|
                0 <= i < table.rows.len() && (#[trigger] table.rows[i]).node == node
                    && table.rows[i].connected;
            assert(i == at);
        }
        if table.is_linked(node) {
            let i = choose|i: int|
                0 <= i < table.rows.len() && (#[trigger] table.rows[i]).node == node
                    && table.rows[i].linked;
            assert(i == at);
        }
        if next.is_connected(node) {
            let i = choose|i: int|
                0 <= i < next.rows.len() && (#[trigger] next.rows[i]).node == node
                    && next.rows[i].connected;
            assert(table.rows[i].node == node);
            assert(i == at);
        }
        if next.is_linked(node) {
            let i = choose|i: int|
                0 <= i < next.rows.len() && (#[trigger] next.rows[i]).node == node
                    && next.rows[i].linked;
            assert(table.rows[i].node == node);
            assert(i == at);
        }
    } else if change.adds() {
        let last = table.rows.len() as int;
        assert(next.rows[last] == change.fresh(node));
        assert forall|i: int| 0 <= i < table.rows.len() implies #[trigger] next.rows[i]
            == table.rows[i] by {}
        let me = choose|i: int|
            0 <= i < table.rows.len() && (#[trigger] table.rows[i]).node == table.me;
        assert(next.rows[me].node == table.me);
        assert forall|other: NodeIdView| other != node implies {
            &&& next.knows(other) == table.knows(other)
            &&& next.is_connected(other) == table.is_connected(other)
            &&& next.is_linked(other) == table.is_linked(other)
        } by {
            lemma_grown_rows(table, next, other);
        }
        assert(next.knows(node));
        if next.is_connected(node) {
            let i = choose|i: int|
                0 <= i < next.rows.len() && (#[trigger] next.rows[i]).node == node
                    && next.rows[i].connected;
            if i < last {
                assert(table.rows[i].node == node);
            }
        }
        if next.is_linked(node) {
            let i = choose|i: int|
                0 <= i < next.rows.len() && (#[trigger] next.rows[i]).node == node
                    && next.rows[i].linked;
            if i < last {
                assert(table.rows[i].node == node);
            }
        }
    }
}

/// Two tables of equal length that differ only in the rows of one node say
/// the same of every other node.
proof fn lemma_same_rows(table: MembershipView, next: MembershipView, other: NodeIdView)
    requires
        next.rows.len() == table.rows.len(),
        forall|i: int|
            0 <= i < table.rows.len() ==> (#[trigger] next.rows[i]).node == table.rows[i].node,
        forall|i: int|
            0 <= i < table.rows.len() && table.rows[i].node == other ==> #[trigger] next.rows[i]
                == table.rows[i],
    ensures
        next.knows(other) == table.knows(other),
        next.is_connected(other) == table.is_connected(other),
        next.is_linked(other) == table.is_linked(other),
{
    if table.knows(other) {
        let i = choose|i: int|
            0 <= i < table.rows.len() && (#[trigger] table.rows[i]).node == other;
        assert(next.rows[i].node == other);
    }
    if next.knows(other) {
        let i = choose|i: int| 0 <= i < next.rows.len() && (#[trigger] next.rows[i]).node == other;
        assert(table.rows[i].node == other);
    }
    if table.is_connected(other) {
        let i = choose|i: int|
            0 <= i < table.rows.len() && (#[trigger] table.rows[i]).node == other
                && table.rows[i].connected;
        assert(next.rows[i] == table.rows[i]);
    }
    if next.is_connected(other) {
        let i = choose|i: int|
            0 <= i < next.rows.len() && (#[trigger] next.rows[i]).node == other
                && next.rows[i].connected;
        assert(table.rows[i].node == other);
        assert(next.rows[i] == table.rows[i]);
    }
    if table.is_linked(other) {
        let i = choose|i: int|
            0 <= i < table.rows.len() && (#[trigger] table.rows[i]).node == other
                && table.rows[i].linked;
        assert(next.rows[i] == table.rows[i]);
    }
    if next.is_linked(other) {
        let i = choose|i: int|
            0 <= i < next.rows.len() && (#[trigger] next.rows[i]).node == other
                && next.rows[i].linked;
        assert(table.rows[i].node == other);
        assert(next.rows[i] == table.rows[i]);
    }
}

/// A table with one more row, for another node, says the same of `other`.
proof fn lemma_grown_rows(table: MembershipView, next: MembershipView, other: NodeIdView)
    requires
        next.rows.len() == table.rows.len() + 1,
        forall|i: int| 0 <= i < table.rows.len() ==> #[trigger] next.rows[i] == table.rows[i],
        next.rows[table.rows.len() as int].node != other,
    ensures
        next.knows(other) == table.knows(other),
        next.is_connected(other) == table.is_connected(other),
        next.is_linked(other) == table.is_linked(other),
{
    if table.knows(other) {
        let i = choose|i: int|
            0 <= i < table.rows.len() && (#[trigger] table.rows[i]).node == other;
        assert(next.rows[i].node == other);
    }
    if next.knows(other) {
        let i = choose|i: int| 0 <= i < next.rows.len() && (#[trigger] next.rows[i]).node == other;
        assert(table.rows[i].node == other);
    }
    if table.is_connected(other) {
        let i = choose|i: int|
            0 <= i < table.rows.len() && (#[trigger] table.rows[i]).node == other
                && table.rows[i].connected;
        assert(next.rows[i] == table.rows[i]);
    }
    if next.is_connected(other) {
        let i = choose|i: int|
            0 <= i < next.rows.len() && (#[trigger] next.rows[i]).node == other
                && next.rows[i].connected;
        assert(table.rows[i] == next.rows[i]);
    }
    if table.is_linked(other) {
        let i = choose|i: int|
            0 <= i < table.rows.len() && (#[trigger] table.rows[i]).node == other
                && table.rows[i].linked;
        assert(next.rows[i] == table.rows[i]);
    }
    if next.is_linked(other) {
        let i = choose|i: int|
            0 <= i < next.rows.len() && (#[trigger] next.rows[i]).node == other
                && next.rows[i].linked;
        assert(table.rows[i] == next.rows[i]);
    }
}

/// A tick keeps a table well-formed.
pub proof fn lemma_tick_wf(table: MembershipView)
    requires
        table.wf(),
    ensures
        table.tick().0.wf(),
        table.tick().0.me == table.me,
{
    let next = table.tick().0;
    let me = choose|i: int| 0 <= i < table.rows.len() && (#[trigger] table.rows[i]).node == table.me;
    assert(next.rows[me].node == table.me);
    assert forall|i: int| 0 <= i < next.rows.len() implies (#[trigger] next.rows[i]).node
        == table.rows[i].node by {}
}

/// Who is told of a delta: each action of a broadcast sends that delta to a
/// connected peer other than the subject, and every such peer is sent it.
pub proof fn lemma_broadcast(table: MembershipView, delta: DeltaView)
    ensures
        forall|k: int|
            0 <= k < table.broadcast(delta).len() ==> {
                let action = #[trigger] table.broadcast(delta)[k];
                &&& action is Send
                &&& action->delta == delta
                &&& table.is_connected(action->to)
                &&& action->to != table.me
                &&& action->to != delta.node
            },
        forall|peer: NodeIdView|
            table.is_connected(peer) && peer != table.me && peer != delta.node
                ==> #[trigger] table.broadcast(delta).contains(ActionView::Send { to: peer, delta }),
{
    let keep = |row: MemberView|
        row.connected && row.node != table.me && row.node != delta.node;
    let audience = table.audience(delta.node);
    let sent = table.broadcast(delta);
    assert forall|k: int| 0 <= k < sent.len() implies {
        let action = #[trigger] sent[k];
        &&& action is Send
        &&& action->delta == delta
        &&& table.is_connected(action->to)
        &&& action->to != table.me
        &&& action->to != delta.node
    } by {
        lemma_select_contains(table.rows, keep, audience[k]);
        assert(audience.contains(audience[k]));
    }
    assert forall|peer: NodeIdView|
        table.is_connected(peer) && peer != table.me && peer != delta.node
        implies #[trigger] sent.contains(ActionView::Send { to: peer, delta }) by {
        lemma_select_contains(table.rows, keep, peer);
        let i = choose|i: int|
            0 <= i < table.rows.len() && (#[trigger] table.rows[i]).node == peer
                && table.rows[i].connected;
        assert(keep(table.rows[i]));
        let k = choose|k: int| 0 <= k < audience.len() && audience[k] == peer;
        assert(sent[k] == ActionView::Send { to: peer, delta });
    }
}

/// What the coming up of a connection does: the peer counts as connected,
/// nothing else changes, and where this is news, exactly the other
/// connected peers are told. Handled by a tidy table, it leaves the table tidy.
pub proof fn lemma_established(table: MembershipView, peer: NodeIdView)
    requires
        table.wf(),
        peer != table.me,
    ensures
        table.established(peer).0.wf(),
        table.established(peer).0.me == table.me,
        forall|node: NodeIdView|
            table.established(peer).0.is_connected(node) == (node == peer || table.is_connected(
                node,
            )),
        forall|node: NodeIdView|
            table.established(peer).0.knows(node) == (node == peer || table.knows(node)),
        table.tidy() ==> table.established(peer).0.tidy(),
        table.is_connected(peer) ==> table.established(peer).1.len() == 0,
        !table.is_connected(peer) ==> table.established(peer).1
            == table.established(peer).0.broadcast(DeltaView { node: peer, connected: true }),
{
    lemma_put(table, peer, Change::Link);
    if table.tidy() {
        lemma_put_tidy(table, peer, Change::Link);
    }
}

/// Changes that link or only make known keep a tidy table tidy.
pub proof fn lemma_put_tidy(table: MembershipView, node: NodeIdView, change: Change)
    requires
        table.tidy(),
        change is Link || change is Learn || change is Unlink,
    ensures
        table.put(node, change).tidy(),
{
    let next = table.put(node, change);
    assert forall|i: int| 0 <= i < next.rows.len() && (#[trigger] next.rows[i]).linked
        implies next.rows[i].connected by {
        if i < table.rows.len() {
            assert(table.rows[i].linked ==> table.rows[i].connected);
        }
    }
}

/// What a delta about an arrival does: no node's connected flag changes,
/// and a connection is asked for exactly where the subject is another node
/// that is not connected yet.
pub proof fn lemma_merge_arrival(table: MembershipView, subject: NodeIdView)
    requires
        table.wf(),
    ensures
        ({
            let delta = DeltaView { node: subject, connected: true };
            let asks = subject != table.me && !table.is_connected(subject);
            &&& table.merge(delta).0.wf()
            &&& table.merge(delta).0.me == table.me
            &&& forall|node: NodeIdView|
                table.merge(delta).0.is_connected(node) == table.is_connected(node)
            &&& forall|node: NodeIdView|
                table.merge(delta).0.knows(node) == (table.knows(node) || (asks && node
                    == subject))
            &&& table.tidy() ==> table.merge(delta).0.tidy()
            &&& table.merge(delta).1 == if asks {
                seq![ActionView::Connect(subject)]
            } else {
                Seq::<ActionView>::empty()
            }
        }),
{
    lemma_put(table, subject, Change::Learn);
    if table.tidy() {
        lemma_put_tidy(table, subject, Change::Learn);
    }
}

/// A tick does nothing to a tidy table.
pub proof fn lemma_tick_tidy(table: MembershipView)
    requires
        table.tidy(),
    ensures
        table.tick().0 == table,
        table.tick().1.len() == 0,
{
    let keep = |row: MemberView| row.linked && !row.connected;
    assert(table.tick().0.rows =~= table.rows);
    if table.stale().len() > 0 {
        let first = table.stale()[0];
        assert(table.stale().contains(first));
        lemma_select_contains(table.rows, keep, first);
    }
}

/// Who counts as a connected peer: every node that the table has as
/// connected, but for the owner.
pub proof fn lemma_connected(table: MembershipView, node: NodeIdView)
    ensures
        table.connected().contains(node) <==> table.is_connected(node) && node != table.me,
{
    let keep = |row: MemberView| row.connected && row.node != table.me && row.node != table.me;
    lemma_select_contains(table.rows, keep, node);
    if table.is_connected(node) && node != table.me {
        let i = choose|i: int|
            0 <= i < table.rows.len() && (#[trigger] table.rows[i]).node == node
                && table.rows[i].connected;
        assert(keep(table.rows[i]));
    }
}

/// Leave propagation, at the node that is asked: the target no longer
/// counts as connected there, nothing else changes, and exactly the peers
/// that still count as connected are sent the removal.
pub proof fn lemma_leave(table: MembershipView, target: NodeIdView)
    requires
        table.wf(),
    ensures
        table.leave(target).0.wf(),
        table.leave(target).0.me == table.me,
        !table.leave(target).0.is_connected(target),
        forall|node: NodeIdView|
            node != target ==> table.leave(target).0.is_connected(node) == table.is_connected(
                node,
            ),
        forall|peer: NodeIdView|
            table.is_connected(peer) && peer != table.me && peer != target
                ==> #[trigger] table.leave(target).1.contains(
                ActionView::Send { to: peer, delta: DeltaView { node: target, connected: false } },
            ),
        forall|k: int|
            0 <= k < table.leave(target).1.len() ==> {
                let action = #[trigger] table.leave(target).1[k];
                &&& action is Send
                &&& action->delta == (DeltaView { node: target, connected: false })
                &&& table.is_connected(action->to)
                &&& action->to != table.me
                &&& action->to != target
            },
{
    lemma_put(table, target, Change::Drop);
    lemma_broadcast(table.leave(target).0, DeltaView { node: target, connected: false });
}

/// Leave propagation, at a peer that receives the removal: whatever its
/// table said of the subject, the subject does not count as connected
/// afterwards, unless the peer is the subject itself, which decides alone.
/// A peer that is sent nothing keeps its table, stale rows included.
pub proof fn lemma_merge_removal(table: MembershipView, subject: NodeIdView)
    requires
        table.wf(),
        subject != table.me,
    ensures
        ({
            let delta = DeltaView { node: subject, connected: false };
            &&& table.merge(delta).0.wf()
            &&& table.merge(delta).0.me == table.me
            &&& !table.merge(delta).0.is_connected(subject)
            &&& table.merge(delta).0.knows(subject)
            &&& forall|node: NodeIdView|
                node != subject ==> table.merge(delta).0.is_connected(node)
                    == table.is_connected(node)
        }),
{
    lemma_put(table, subject, Change::Drop);
}

/// The owner's own row: it says connected from the start, and only a
/// request that the owner leave changes that.
pub proof fn lemma_owner_stays(table: MembershipView, node: NodeIdView, delta: DeltaView)
    requires
        table.wf(),
        table.is_connected(table.me),
    ensures
        MembershipView::init(node).is_connected(node),
        MembershipView::init(node).wf(),
        table.established(node).0.is_connected(table.me),
        table.lost(node).is_connected(table.me),
        table.merge(delta).0.is_connected(table.me),
        table.tick().0.is_connected(table.me),
        node != table.me ==> table.leave(node).0.is_connected(table.me),
        !table.leave(table.me).0.is_connected(table.me),
{
    let start = MembershipView::init(node);
    assert(start.rows[0].node == node);
    lemma_put(table, node, Change::Link);
    lemma_put(table, node, Change::Unlink);
    lemma_put(table, node, Change::Drop);
    lemma_put(table, delta.node, Change::Learn);
    lemma_put(table, delta.node, Change::Drop);
    lemma_put(table, table.me, Change::Drop);
    let i = choose|i: int|
        0 <= i < table.rows.len() && (#[trigger] table.rows[i]).node == table.me
            && table.rows[i].connected;
    assert(table.tick().0.rows[i].node == table.me);
}

} // verus!
