//! What the membership of a node reports about itself.

use vstd::prelude::*;
use crate::membership::table::Membership;
use crate::metrics::{Metric, Metrics, Sample};

verus! {

/// What the membership component of a node reports about itself: how
/// often it was asked to join and to leave and how many deltas it was
/// sent, and how many nodes its table holds and has as connected peers.
/// The first three are counters: they start at zero and never go down.
/// The last two are gauges: each sample overwrites the one before.
#[derive(Debug, Clone)]
pub struct ClusterMetrics {
    joins: u64,
    leaves: u64,
    deltas: u64,
    members: i64,
    connected: i64,
}

/// What a `ClusterMetrics` is.
pub struct ClusterMetricsView {
    pub joins: u64,
    pub leaves: u64,
    pub deltas: u64,
    pub members: i64,
    pub connected: i64,
}

/// A length as a gauge; one that a gauge cannot hold reads as the largest
/// gauge.
pub open spec fn gauge_of(n: nat) -> i64 {
    if n <= i64::MAX {
        n as i64
    } else {
        i64::MAX
    }
}

/// A counter after one more event; a counter that is full stays full.
pub open spec fn bumped(count: u64) -> u64 {
    if count < u64::MAX {
        (count + 1) as u64
    } else {
        count
    }
}

fn as_gauge(n: usize) -> (g: i64)
    ensures
        g == gauge_of(n as nat),
{
    let wide: u64 = n as u64;
    if wide <= 0x7fff_ffff_ffff_ffff {
        wide as i64
    } else {
        i64::MAX
    }
}

fn bump(count: u64) -> (next: u64)
    ensures
        next == bumped(count),
{
    if count < u64::MAX {
        count + 1
    } else {
        count
    }
}

impl View for ClusterMetrics {
    type V = ClusterMetricsView;

    closed spec fn view(&self) -> ClusterMetricsView {
        ClusterMetricsView {
            joins: self.joins,
            leaves: self.leaves,
            deltas: self.deltas,
            members: self.members,
            connected: self.connected,
        }
    }
}

impl ClusterMetrics {
    /// All counts at zero.
    pub fn new() -> (metrics: ClusterMetrics)
        ensures
            metrics@ == (ClusterMetricsView {
                joins: 0,
                leaves: 0,
                deltas: 0,
                members: 0,
                connected: 0,
            }),
    {
        ClusterMetrics { joins: 0, leaves: 0, deltas: 0, members: 0, connected: 0 }
    }

    /// Counts a request to join.
    pub fn joined(&mut self)
        ensures
            final(self)@ == (ClusterMetricsView { joins: bumped(old(self)@.joins), ..old(self)@ }),
    {
        self.joins = bump(self.joins);
    }

    /// Counts a request to leave.
    pub fn left(&mut self)
        ensures
            final(self)@ == (ClusterMetricsView {
                leaves: bumped(old(self)@.leaves),
                ..old(self)@
            }),
    {
        self.leaves = bump(self.leaves);
    }

    /// Counts a delta that a peer sent.
    pub fn merged(&mut self)
        ensures
            final(self)@ == (ClusterMetricsView {
                deltas: bumped(old(self)@.deltas),
                ..old(self)@
            }),
    {
        self.deltas = bump(self.deltas);
    }

    /// Takes a sample of the two gauges from `table`; the counters stay.
    pub fn observe(&mut self, table: &Membership)
        ensures
            final(self)@ == (ClusterMetricsView {
                members: gauge_of(table@.rows.len()),
                connected: gauge_of(table@.connected().len()),
                ..old(self)@
            }),
    {
        self.members = as_gauge(table.len());
        let connected = table.connected();
        self.connected = as_gauge(connected.len());
    }
}

impl ClusterMetricsView {
    /// The samples, in the order of declaration, each under the name of
    /// its field.
    pub open spec fn listing(self) -> Seq<Sample> {
        seq![
            ("joins"@, Metric::Counter(self.joins)),
            ("leaves"@, Metric::Counter(self.leaves)),
            ("deltas"@, Metric::Counter(self.deltas)),
            ("members"@, Metric::Gauge(self.members)),
            ("connected"@, Metric::Gauge(self.connected)),
        ]
    }
}

impl Metrics for ClusterMetrics {
    open spec fn listing(&self) -> Seq<Sample> {
        self@.listing()
    }

    fn data(&self) -> (list: Vec<(String, Metric)>) {
        let mut list: Vec<(String, Metric)> = Vec::new();
        list.push(("joins".to_owned(), Metric::Counter(self.joins)));
        list.push(("leaves".to_owned(), Metric::Counter(self.leaves)));
        list.push(("deltas".to_owned(), Metric::Counter(self.deltas)));
        list.push(("members".to_owned(), Metric::Gauge(self.members)));
        list.push(("connected".to_owned(), Metric::Gauge(self.connected)));
        proof {
            assert(list.deep_view() =~= self@.listing());
        }
        list
    }

    proof fn lemma_names(&self) {
        reveal_strlit("joins");
        reveal_strlit("leaves");
        reveal_strlit("deltas");
        reveal_strlit("members");
        reveal_strlit("connected");
        let listing = self@.listing();
        assert(listing[0].0[0] == 'j');
        assert(listing[1].0[0] == 'l');
        assert(listing[2].0[0] == 'd');
        assert(listing[3].0[0] == 'm');
        assert(listing[4].0[0] == 'c');
        assert forall|i: int, j: int| 0 <= i < j < listing.len() implies (#[trigger] listing[i]).0 != (
        #[trigger] listing[j]).0 by {
            assert(listing[i].0[0] != listing[j].0[0]);
        }
    }
}

/// Counters only go up: whatever is counted or sampled, no counter is
/// below what it was.
pub proof fn lemma_counters_never_go_down(count: u64)
    ensures
        bumped(count) >= count,
        count < u64::MAX ==> bumped(count) == count + 1,
{
}

} // verus!
