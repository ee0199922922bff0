//! The membership table that a node keeps and runs.

use vstd::prelude::*;
use crate::correlation_id::CorrelationId;
use crate::envelope::Envelope;
use crate::errors::{view_ok, Error};
use crate::membership::laws::{lemma_put, lemma_select_push, lemma_tick_wf};
use crate::membership::model::{
    select, ActionView, Change, DeltaView, MemberView, MembershipView,
};
use crate::msg::{Msg, Rpy, RpyView};
use crate::node_id::NodeId;
use crate::pid::Pid;
use crate::user_msg::UserMsg;

verus! {

/// A minimal description of one change of membership.
#[derive(Debug, PartialEq)]
pub struct Delta {
    pub node: NodeId,
    pub connected: bool,
}

impl View for Delta {
    type V = DeltaView;

    open spec fn view(&self) -> DeltaView {
        DeltaView { node: self.node@, connected: self.connected }
    }
}

impl DeepView for Delta {
    type V = DeltaView;

    open spec fn deep_view(&self) -> DeltaView {
        self@
    }
}

impl Clone for Delta {
    fn clone(&self) -> (delta: Delta)
        ensures
            delta@ == self@,
    {
        Delta { node: self.node.clone(), connected: self.connected }
    }
}

/// What a node asks of its surroundings.
#[derive(Debug, Clone, PartialEq)]
pub enum Action {
    /// Open a connection to this node.
    Connect(NodeId),
    /// Close the connection to this node.
    Disconnect(NodeId),
    /// Send this delta to the node `to`.
    Send { to: NodeId, delta: Delta },
}

impl View for Action {
    type V = ActionView;

    open spec fn view(&self) -> ActionView {
        match self {
            Action::Connect(node) => ActionView::Connect(node@),
            Action::Disconnect(node) => ActionView::Disconnect(node@),
            Action::Send { to, delta } => ActionView::Send { to: to@, delta: delta@ },
        }
    }
}

impl DeepView for Action {
    type V = ActionView;

    open spec fn deep_view(&self) -> ActionView {
        self@
    }
}

#[derive(Debug, Clone)]
struct Member {
    node: NodeId,
    connected: bool,
    linked: bool,
}

impl View for Member {
    type V = MemberView;

    closed spec fn view(&self) -> MemberView {
        MemberView { node: self.node@, connected: self.connected, linked: self.linked }
    }
}

impl DeepView for Member {
    type V = MemberView;

    closed spec fn deep_view(&self) -> MemberView {
        self@
    }
}

/// The membership table of one node. It always has a row for its owner;
/// that row says connected until the owner is asked to leave.
#[derive(Debug, Clone)]
pub struct Membership {
    me: NodeId,
    rows: Vec<Member>,
}

impl View for Membership {
    type V = MembershipView;

    closed spec fn view(&self) -> MembershipView {
        MembershipView { me: self.me@, rows: self.rows.deep_view() }
    }
}

impl Change {
    fn apply_to(self, row: &Member) -> (next: Member)
        ensures
            next@ == self.apply(row@),
    {
        let node = row.node.clone();
        match self {
            Change::Link => Member { node, connected: true, linked: true },
            Change::Unlink => Member { node, connected: false, linked: false },
            Change::Drop => Member { node, connected: false, linked: row.linked },
            Change::Learn => Member { node, connected: row.connected, linked: row.linked },
        }
    }
}

impl Membership {
    /// The table is well-formed: no node has two rows, the owner has one.
    pub open spec fn wf(&self) -> bool {
        self@.wf()
    }

    /// The table of a node that has just started.
    pub fn new(me: NodeId) -> (table: Membership)
        ensures
            table.wf(),
            table@ == MembershipView::init(me@),
    {
        let mut rows: Vec<Member> = Vec::new();
        rows.push(Member { node: me.clone(), connected: true, linked: false });
        let table = Membership { me, rows };
        proof {
            assert(table@.rows =~= MembershipView::init(me@).rows);
            assert(table@.rows[0].node == me@);
        }
        table
    }

    /// The owner of the table.
    pub fn id(&self) -> (me: &NodeId)
        ensures
            me@ == self@.me,
    {
        &self.me
    }

    fn find(&self, node: &NodeId) -> (at: Option<usize>)
        ensures
            match at {
                Some(i) => i < self@.rows.len() && self@.rows[i as int].node == node@,
                None => !self@.knows(node@),
            },
    {
        let mut i: usize = 0;
        while i < self.rows.len()
            invariant
                i <= self.rows.len(),
                forall|j: int| 0 <= j < i ==> (#[trigger] self@.rows[j]).node != node@,
            decreases self.rows.len() - i,
        {
            if self.rows[i].node == *node {
                return Some(i);
            }
            i += 1;
        }
        None
    }

    /// How many nodes the table holds.
    pub fn len(&self) -> (n: usize)
        ensures
            n == self@.rows.len(),
    {
        self.rows.len()
    }

    /// Whether the table has a row for `node`.
    pub fn knows(&self, node: &NodeId) -> (known: bool)
        ensures
            known == self@.knows(node@),
    {
        self.find(node).is_some()
    }

    /// Whether `node` counts as connected.
    pub fn is_connected(&self, node: &NodeId) -> (connected: bool)
        requires
            self.wf(),
        ensures
            connected == self@.is_connected(node@),
    {
        match self.find(node) {
            Some(i) => {
                proof {
                    if self@.is_connected(node@) {
                        let j = choose|j: int|
                            0 <= j < self@.rows.len() && (#[trigger] self@.rows[j]).node == node@
                                && self@.rows[j].connected;
                        assert(j == i);
                    }
                }
                self.rows[i].connected
            },
            None => false,
        }
    }

    fn put(&mut self, node: &NodeId, change: Change)
        requires
            old(self).wf(),
        ensures
            final(self).wf(),
            final(self)@ == old(self)@.put(node@, change),
    {
        proof {
            lemma_put(self@, node@, change);
        }
        match self.find(node) {
            Some(i) => {
                let next = change.apply_to(&self.rows[i]);
                self.rows.set(i, next);
                proof {
                    let before = old(self)@;
                    assert forall|j: int| 0 <= j < before.rows.len() implies self@.rows[j]
                        == before.put(node@, change).rows[j] by {
                        if j != i && before.rows[j].node == node@ {
                            if j < i {
                                assert(before.rows[j].node != before.rows[i as int].node);
                            } else {
                                assert(before.rows[i as int].node != before.rows[j].node);
                            }
                        }
                    }
                    assert(self@.rows =~= before.put(node@, change).rows);
                }
            },
            None => {
                match change {
                    Change::Unlink => {},
                    _ => {
                        let fresh = Member { node: node.clone(), connected: false, linked: false };
                        let row = change.apply_to(&fresh);
                        self.rows.push(row);
                        proof {
                            assert(self@.rows =~= old(self)@.put(node@, change).rows);
                        }
                    },
                }
            },
        }
    }

    fn audience(&self, subject: &NodeId) -> (peers: Vec<NodeId>)
        ensures
            peers.deep_view() == self@.audience(subject@),
    {
        let ghost keep = |row: MemberView|
            row.connected && row.node != self@.me && row.node != subject@;
        let mut peers: Vec<NodeId> = Vec::new();
        let mut i: usize = 0;
        while i < self.rows.len()
            invariant
                i <= self.rows.len(),
                keep == (|row: MemberView|
                    row.connected && row.node != self@.me && row.node != subject@),
                peers.deep_view() == select(self@.rows.take(i as int), keep),
            decreases self.rows.len() - i,
        {
            let row = &self.rows[i];
            let ghost before = peers.deep_view();
            let kept = row.connected && !(row.node == self.me) && !(row.node == *subject);
            if kept {
                peers.push(row.node.clone());
            }
            proof {
                assert(self@.rows.take(i + 1) =~= self@.rows.take(i as int).push(self@.rows[i as int]));
                lemma_select_push(self@.rows.take(i as int), self@.rows[i as int], keep);
                assert(kept == keep(self@.rows[i as int]));
                if kept {
                    assert(peers.deep_view() =~= before.push(row.node@));
                } else {
                    assert(peers.deep_view() =~= before);
                }
            }
            i += 1;
        }
        proof {
            assert(self@.rows.take(i as int) =~= self@.rows);
        }
        peers
    }

    fn stale(&self) -> (peers: Vec<NodeId>)
        ensures
            peers.deep_view() == self@.stale(),
    {
        let ghost keep = |row: MemberView| row.linked && !row.connected;
        let mut peers: Vec<NodeId> = Vec::new();
        let mut i: usize = 0;
        while i < self.rows.len()
            invariant
                i <= self.rows.len(),
                keep == (|row: MemberView| row.linked && !row.connected),
                peers.deep_view() == select(self@.rows.take(i as int), keep),
            decreases self.rows.len() - i,
        {
            let row = &self.rows[i];
            let ghost before = peers.deep_view();
            let kept = row.linked && !row.connected;
            if kept {
                peers.push(row.node.clone());
            }
            proof {
                assert(self@.rows.take(i + 1) =~= self@.rows.take(i as int).push(self@.rows[i as int]));
                lemma_select_push(self@.rows.take(i as int), self@.rows[i as int], keep);
                if kept {
                    assert(peers.deep_view() =~= before.push(row.node@));
                } else {
                    assert(peers.deep_view() =~= before);
                }
            }
            i += 1;
        }
        proof {
            assert(self@.rows.take(i as int) =~= self@.rows);
        }
        peers
    }

    fn broadcast(&self, delta: &Delta) -> (actions: Vec<Action>)
        ensures
            actions.deep_view() == self@.broadcast(delta@),
    {
        let peers = self.audience(&delta.node);
        let ghost goal = self@.broadcast(delta@);
        let mut actions: Vec<Action> = Vec::new();
        for peer in iter: peers.into_iter()
            invariant
                iter.seq().len() == goal.len(),
                forall|i: int|
                    0 <= i < goal.len() ==> (ActionView::Send {
                        to: (#[trigger] iter.seq()[i])@,
                        delta: delta@,
                    }) == goal[i],
                actions.len() == iter.index(),
                forall|i: int| 0 <= i < actions.len() ==> (#[trigger] actions[i])@ == goal[i],
        {
            actions.push(Action::Send { to: peer, delta: delta.clone() });
        }
        proof {
            assert(actions.deep_view() =~= goal);
        }
        actions
    }

    /// The peers that count as connected, in the order of the table.
    pub fn connected(&self) -> (peers: Vec<NodeId>)
        ensures
            peers.deep_view() == self@.connected(),
    {
        self.audience(&self.me)
    }

    /// The table as a list: each node with its connected flag.
    pub fn members(&self) -> (rows: Vec<(NodeId, bool)>)
        ensures
            rows.deep_view() == self@.status(),
    {
        let mut rows: Vec<(NodeId, bool)> = Vec::new();
        let mut i: usize = 0;
        while i < self.rows.len()
            invariant
                i <= self.rows.len(),
                rows.len() == i,
                forall|j: int|
                    0 <= j < i ==> (#[trigger] rows[j]).deep_view() == self@.status()[j],
            decreases self.rows.len() - i,
        {
            rows.push((self.rows[i].node.clone(), self.rows[i].connected));
            i += 1;
        }
        proof {
            assert(rows.deep_view() =~= self@.status());
        }
        rows
    }

    /// Answers a query for the membership with the table as it is at this
    /// instant.
    pub fn status(&self) -> (rpy: Rpy)
        ensures
            rpy@ == RpyView::Members(self@.status()),
    {
        Rpy::Members(self.members())
    }

    /// The address under which the membership of this node answers.
    pub fn pid(&self) -> (pid: Pid)
        ensures
            pid@ == self@.pid(),
    {
        Pid::new("cluster_server", Some("rabble"), self.me.clone())
    }

    /// Answers a query for the status of the cluster. The answer holds the
    /// table as it is at this instant; it waits for nothing.
    pub fn cluster_status<T: UserMsg>(&self, correlation_id: CorrelationId) -> (answer: Envelope<T>)
        ensures
            answer@ == self@.cluster_status::<T::V>(correlation_id@),
    {
        Envelope::new(
            correlation_id.pid.clone(),
            self.pid(),
            Msg::Rpy(self.status()),
            Some(correlation_id),
        )
    }

    /// Handles a request to join `target`.
    pub fn join(&self, target: &NodeId) -> (r: Result<Vec<Action>, Error>)
        requires
            self.wf(),
        ensures
            view_ok(r) == self@.join(target@),
    {
        if *target == self.me {
            return Err(Error::JoinSelf);
        }
        let mut actions: Vec<Action> = Vec::new();
        if !self.is_connected(target) {
            actions.push(Action::Connect(target.clone()));
        }
        proof {
            assert(actions.deep_view() =~= self@.join(target@)->Ok_0);
        }
        Ok(actions)
    }

    /// Handles the news that a connection to `peer` came up.
    pub fn established(&mut self, peer: &NodeId) -> (actions: Vec<Action>)
        requires
            old(self).wf(),
        ensures
            final(self).wf(),
            final(self)@ == old(self)@.established(peer@).0,
            actions.deep_view() == old(self)@.established(peer@).1,
    {
        if *peer == self.me {
            let actions: Vec<Action> = Vec::new();
            assert(actions.deep_view() =~= Seq::<ActionView>::empty());
            return actions;
        }
        let news = !self.is_connected(peer);
        self.put(peer, Change::Link);
        if news {
            self.broadcast(&Delta { node: peer.clone(), connected: true })
        } else {
            let actions: Vec<Action> = Vec::new();
            assert(actions.deep_view() =~= Seq::<ActionView>::empty());
            actions
        }
    }

    /// Handles the news that the connection to `peer` went down.
    pub fn lost(&mut self, peer: &NodeId)
        requires
            old(self).wf(),
        ensures
            final(self).wf(),
            final(self)@ == old(self)@.lost(peer@),
    {
        if !(*peer == self.me) {
            self.put(peer, Change::Unlink);
        }
    }

    /// Handles a request that `target` leave.
    pub fn leave(&mut self, target: &NodeId) -> (actions: Vec<Action>)
        requires
            old(self).wf(),
        ensures
            final(self).wf(),
            final(self)@ == old(self)@.leave(target@).0,
            actions.deep_view() == old(self)@.leave(target@).1,
    {
        self.put(target, Change::Drop);
        self.broadcast(&Delta { node: target.clone(), connected: false })
    }

    /// Handles a delta that arrived from a peer.
    pub fn merge(&mut self, delta: &Delta) -> (actions: Vec<Action>)
        requires
            old(self).wf(),
        ensures
            final(self).wf(),
            final(self)@ == old(self)@.merge(delta@).0,
            actions.deep_view() == old(self)@.merge(delta@).1,
    {
        let mut actions: Vec<Action> = Vec::new();
        assert(actions.deep_view() =~= Seq::<ActionView>::empty());
        if delta.node == self.me {
            return actions;
        }
        let connected = self.is_connected(&delta.node);
        if delta.connected {
            if !connected {
                self.put(&delta.node, Change::Learn);
                actions.push(Action::Connect(delta.node.clone()));
                assert(actions.deep_view() =~= seq![ActionView::Connect(delta@.node)]);
            }
            actions
        } else if self.knows(&delta.node) && !connected {
            actions
        } else {
            self.put(&delta.node, Change::Drop);
            self.broadcast(delta)
        }
    }

    /// Handles a tick: closes the connections to peers that no longer
    /// count as connected.
    pub fn tick(&mut self) -> (actions: Vec<Action>)
        requires
            old(self).wf(),
        ensures
            final(self).wf(),
            final(self)@ == old(self)@.tick().0,
            actions.deep_view() == old(self)@.tick().1,
    {
        let stale = self.stale();
        let ghost goal = self@.tick();
        let mut actions: Vec<Action> = Vec::new();
        for peer in iter: stale.into_iter()
            invariant
                iter.seq().len() == goal.1.len(),
                forall|i: int|
                    0 <= i < goal.1.len() ==> ActionView::Disconnect((#[trigger] iter.seq()[i])@)
                        == goal.1[i],
                actions.len() == iter.index(),
                forall|i: int| 0 <= i < actions.len() ==> (#[trigger] actions[i])@ == goal.1[i],
        {
            actions.push(Action::Disconnect(peer));
        }
        let mut i: usize = 0;
        while i < self.rows.len()
            invariant
                i <= self.rows.len(),
                self@.me == old(self)@.me,
                self@.rows.len() == old(self)@.rows.len(),
                goal == old(self)@.tick(),
                forall|j: int| 0 <= j < i ==> (#[trigger] self@.rows[j]) == goal.0.rows[j],
                forall|j: int|
                    i <= j < self@.rows.len() ==> (#[trigger] self@.rows[j]) == old(self)@.rows[j],
            decreases self.rows.len() - i,
        {
            let ghost before = self@;
            assert(before.rows[i as int] == old(self)@.rows[i as int]);
            if self.rows[i].linked && !self.rows[i].connected {
                let row = Member { node: self.rows[i].node.clone(), connected: false, linked: false };
                let ghost fresh = row@;
                self.rows.set(i, row);
                assert(self@.rows =~= before.rows.update(i as int, fresh));
            }
            i += 1;
        }
        proof {
            assert(self@.rows =~= goal.0.rows);
            assert(actions.deep_view() =~= goal.1);
            lemma_tick_wf(old(self)@);
        }
        actions
    }
}

} // verus!
