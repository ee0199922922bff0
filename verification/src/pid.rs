//! The address of one actor.

use vstd::prelude::*;
use vstd::std_specs::cmp::PartialEqSpecImpl;
use crate::node_id::{take_text, text_or_empty, NodeId, NodeIdView};
use crate::pb_messages::{PbNodeId, PbNodeIdView, PbPid, PbPidView, PbPids, PbPidsView};

verus! {

/// The location-transparent address of one actor: its name, the group it
/// belongs to, if any, and the node that owns it.
#[derive(Debug, Eq, Hash, PartialOrd, Ord)]
pub struct Pid {
    pub name: String,
    pub group: Option<String>,
    pub node: NodeId,
}

/// What a `Pid` is.
pub struct PidView {
    pub name: Seq<char>,
    pub group: Option<Seq<char>>,
    pub node: NodeIdView,
}

impl PidView {
    /// The wire record of this address: name and node present, the group
    /// present where there is one.
    pub open spec fn to_pb(self) -> PbPidView {
        PbPidView { name: Some(self.name), group: self.group, node: Some(self.node.to_pb()) }
    }

    /// The address that a wire record stands for. An absent name reads as
    /// the empty text, an absent node as the locator of two empty texts.
    pub open spec fn from_pb(pb: PbPidView) -> PidView {
        PidView {
            name: text_or_empty(pb.name),
            group: pb.group,
            node: match pb.node {
                Some(node) => NodeIdView::from_pb(node),
                None => NodeIdView { name: Seq::empty(), addr: Seq::empty() },
            },
        }
    }

    /// The wire records of a list of addresses, in order.
    pub open spec fn list_to_pb(pids: Seq<PidView>) -> PbPidsView {
        PbPidsView { pids: Seq::new(pids.len(), |i: int| pids[i].to_pb()) }
    }

    /// The addresses that a wire list stands for, in order.
    pub open spec fn list_from_pb(pb: PbPidsView) -> Seq<PidView> {
        Seq::new(pb.pids.len(), |i: int| PidView::from_pb(pb.pids[i]))
    }
}

impl View for Pid {
    type V = PidView;

    open spec fn view(&self) -> PidView {
        PidView { name: self.name@, group: self.group.deep_view(), node: self.node@ }
    }
}

/// A copy of an optional string.
fn clone_text(s: &Option<String>) -> (c: Option<String>)
    ensures
        c.deep_view() == s.deep_view(),
{
    match s {
        Some(s) => Some(s.clone()),
        None => None,
    }
}

/// Whether two optional strings hold the same text, or both none.
fn same_text(a: &Option<String>, b: &Option<String>) -> (r: bool)
    ensures
        r == (a.deep_view() == b.deep_view()),
{
    match a {
        Some(x) => match b {
            Some(y) => *x == *y,
            None => false,
        },
        None => b.is_none(),
    }
}

impl DeepView for Pid {
    type V = PidView;

    open spec fn deep_view(&self) -> PidView {
        self@
    }
}

impl Pid {
    /// Makes the address of the actor `name`, of `group`, on `node`.
    pub fn new(name: &str, group: Option<&str>, node: NodeId) -> (pid: Pid)
        ensures
            pid@.name == name@,
            pid@.group == match group {
                Some(g) => Some(g@),
                None => None,
            },
            pid@.node == node@,
    {
        let group = match group {
            Some(g) => Some(g.to_owned()),
            None => None,
        };
        Pid { name: name.to_owned(), group, node }
    }
}

impl Pid {
    /// Reads an address from its wire record.
    pub fn from(pb: PbPid) -> (pid: Pid)
        ensures
            pid@ == PidView::from_pb(pb@),
    {
        let node = match pb.node {
            Some(node) => NodeId::from(node),
            None => NodeId { name: String::new(), addr: String::new() },
        };
        Pid { name: take_text(pb.name), group: pb.group, node }
    }

    /// Reads a list of addresses from its wire record, in order.
    pub fn list_from(pb: PbPids) -> (pids: Vec<Pid>)
        ensures
            pids.deep_view() == PidView::list_from_pb(pb@),
    {
        let ghost goal = PidView::list_from_pb(pb@);
        let mut pids: Vec<Pid> = Vec::new();
        for record in iter: pb.pids.into_iter()
            invariant
                iter.seq().len() == goal.len(),
                forall|i: int| 0 <= i < goal.len() ==> PidView::from_pb(iter.seq()[i]@) == goal[i],
                pids.len() == iter.index(),
                forall|i: int| 0 <= i < pids.len() ==> pids[i]@ == goal[i],
        {
            pids.push(Pid::from(record));
        }
        assert(pids.deep_view() =~= goal);
        pids
    }
}

impl PbPid {
    /// Writes an address as a wire record.
    pub fn from(pid: Pid) -> (pb: PbPid)
        ensures
            pb@ == pid@.to_pb(),
    {
        PbPid { name: Some(pid.name), group: pid.group, node: Some(PbNodeId::from(pid.node)) }
    }
}

impl PbPids {
    /// Writes a list of addresses as a wire record, in order.
    pub fn from(pids: Vec<Pid>) -> (pb: PbPids)
        ensures
            pb@ == PidView::list_to_pb(pids.deep_view()),
    {
        let ghost goal = PidView::list_to_pb(pids.deep_view()).pids;
        let mut records: Vec<PbPid> = Vec::new();
        for pid in iter: pids.into_iter()
            invariant
                iter.seq().len() == goal.len(),
                forall|i: int| 0 <= i < goal.len() ==> iter.seq()[i]@.to_pb() == goal[i],
                records.len() == iter.index(),
                forall|i: int| 0 <= i < records.len() ==> records[i]@ == goal[i],
        {
            records.push(PbPid::from(pid));
        }
        assert(records.deep_view() =~= goal);
        PbPids { pids: records }
    }
}

/// An address survives the wire unchanged.
pub proof fn lemma_pid_round_trip(pid: PidView)
    ensures
        PidView::from_pb(pid.to_pb()) == pid,
{
}

/// A list of addresses survives the wire unchanged, order included.
pub proof fn lemma_pids_round_trip(pids: Seq<PidView>)
    ensures
        PidView::list_from_pb(PidView::list_to_pb(pids)) == pids,
{
    assert(PidView::list_from_pb(PidView::list_to_pb(pids)) =~= pids);
}

impl Clone for Pid {
    fn clone(&self) -> (pid: Pid)
        ensures
            pid@ == self@,
    {
        Pid { name: self.name.clone(), group: clone_text(&self.group), node: self.node.clone() }
    }
}

impl PartialEq for Pid {
    fn eq(&self, other: &Pid) -> (b: bool) {
        self.name == other.name && same_text(&self.group, &other.group) && self.node == other.node
    }
}

impl PartialEqSpecImpl for Pid {
    open spec fn obeys_eq_spec() -> bool {
        true
    }

    open spec fn eq_spec(&self, other: &Pid) -> bool {
        self@ == other@
    }
}

} // verus!
