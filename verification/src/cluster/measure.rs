//! How far a cluster is from rest.

use vstd::prelude::*;
use crate::cluster::model::{Cluster, Packet};
use crate::node_id::NodeIdView;

verus! {

/// What a packet weighs: news weighs more than the request for a
/// connection that it may turn into.
pub open spec fn cost(packet: Packet) -> nat {
    if packet.action is Send {
        2
    } else {
        1
    }
}

/// What all that is in flight weighs.
pub open spec fn weight(wire: Seq<Packet>) -> nat
    decreases wire.len(),
{
    if wire.len() == 0 {
        0
    } else {
        weight(wire.drop_last()) + cost(wire.last())
    }
}

/// The weight of two wires is the sum of their weights.
pub proof fn lemma_weight_add(wire: Seq<Packet>, added: Seq<Packet>)
    ensures
        weight(wire + added) == weight(wire) + weight(added),
    decreases added.len(),
{
    if added.len() == 0 {
        assert(wire + added =~= wire);
    } else {
        lemma_weight_add(wire, added.drop_last());
        assert((wire + added).drop_last() =~= wire + added.drop_last());
    }
}

/// A packet that leaves the wire takes its cost with it.
pub proof fn lemma_weight_remove(wire: Seq<Packet>, i: int)
    requires
        0 <= i < wire.len(),
    ensures
        weight(wire.remove(i)) + cost(wire[i]) == weight(wire),
    decreases wire.len(),
{
    if i == wire.len() - 1 {
        assert(wire.remove(i) =~= wire.drop_last());
    } else {
        lemma_weight_remove(wire.drop_last(), i);
        assert(wire.remove(i).drop_last() =~= wire.drop_last().remove(i));
        assert(wire.remove(i).last() == wire.last());
    }
}

impl Cluster {
    /// How many of the first `n` nodes of the cluster the table of `a` does
    /// not have as connected.
    pub open spec fn unlinked_from(self, a: NodeIdView, n: nat) -> nat
        decreases n,
    {
        if n == 0 {
            0
        } else {
            self.unlinked_from(a, (n - 1) as nat) + if self.conn(a, self.ids[n - 1]) {
                0nat
            } else {
                1nat
            }
        }
    }

    /// How many pairs of a node among the first `m` and any node there are
    /// of which the first does not have the second as connected.
    pub open spec fn unlinked(self, m: nat) -> nat
        decreases m,
    {
        if m == 0 {
            0
        } else {
            self.unlinked((m - 1) as nat) + self.unlinked_from(self.ids[m - 1], self.ids.len())
        }
    }

    /// How far the cluster is from rest: the links that are still missing,
    /// and then the weight of what is in flight.
    pub open spec fn distance(self) -> (nat, nat) {
        (self.unlinked(self.ids.len()), weight(self.wire))
    }
}

/// One distance is nearer to rest than another.
pub open spec fn nearer(after: (nat, nat), before: (nat, nat)) -> bool {
    after.0 < before.0 || (after.0 == before.0 && after.1 < before.1)
}

/// Where the table of `a` only gains connected nodes, it misses no more of
/// them than before, and fewer once it gains one.
proof fn lemma_unlinked_from(c: Cluster, d: Cluster, a: NodeIdView, n: nat)
    requires
        d.ids == c.ids,
        n <= c.ids.len(),
        forall|j: int| 0 <= j < n ==> c.conn(a, #[trigger] c.ids[j]) ==> d.conn(a, c.ids[j]),
    ensures
        d.unlinked_from(a, n) <= c.unlinked_from(a, n),
        (exists|j: int| 0 <= j < n && !c.conn(a, #[trigger] c.ids[j]) && d.conn(a, c.ids[j]))
            ==> d.unlinked_from(a, n) < c.unlinked_from(a, n),
    decreases n,
{
    if n > 0 {
        lemma_unlinked_from(c, d, a, (n - 1) as nat);
        if exists|j: int| 0 <= j < n && !c.conn(a, #[trigger] c.ids[j]) && d.conn(a, c.ids[j]) {
            let j = choose|j: int|
                0 <= j < n && !c.conn(a, #[trigger] c.ids[j]) && d.conn(a, c.ids[j]);
            if j < n - 1 {
                assert(d.unlinked_from(a, (n - 1) as nat) < c.unlinked_from(a, (n - 1) as nat));
            }
        }
    }
}

/// Links that only grow bring the count of missing links down, and one new
/// link brings it down for good.
pub proof fn lemma_unlinked(c: Cluster, d: Cluster, m: nat)
    requires
        d.ids == c.ids,
        m <= c.ids.len(),
        forall|u: NodeIdView, v: NodeIdView|
            c.has(u) && c.has(v) && c.conn(u, v) ==> #[trigger] d.conn(u, v),
    ensures
        d.unlinked(m) <= c.unlinked(m),
        (exists|i: int, j: int|
            0 <= i < m && 0 <= j < c.ids.len() && !c.conn(#[trigger] c.ids[i], #[trigger] c.ids[j])
                && d.conn(c.ids[i], c.ids[j])) ==> d.unlinked(m) < c.unlinked(m),
    decreases m,
{
    if m > 0 {
        lemma_unlinked(c, d, (m - 1) as nat);
        let a = c.ids[m - 1];
        assert(c.has(a));
        assert forall|j: int| 0 <= j < c.ids.len() && c.conn(a, #[trigger] c.ids[j])
            implies d.conn(a, c.ids[j]) by {
            assert(c.has(c.ids[j]));
        }
        lemma_unlinked_from(c, d, a, c.ids.len());
        if exists|i: int, j: int|
            0 <= i < m && 0 <= j < c.ids.len() && !c.conn(#[trigger] c.ids[i], #[trigger] c.ids[j])
                && d.conn(c.ids[i], c.ids[j]) {
            let (i, j) = choose|i: int, j: int|
                0 <= i < m && 0 <= j < c.ids.len() && !c.conn(
                    #[trigger] c.ids[i],
                    #[trigger] c.ids[j],
                ) && d.conn(c.ids[i], c.ids[j]);
            if i < m - 1 {
                assert(d.unlinked((m - 1) as nat) < c.unlinked((m - 1) as nat));
            } else {
                assert(!c.conn(a, c.ids[j]) && d.conn(a, c.ids[j]));
            }
        }
    }
}

} // verus!
