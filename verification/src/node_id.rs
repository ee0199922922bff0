//! The locator of a node in the cluster.

use vstd::prelude::*;
use vstd::std_specs::cmp::PartialEqSpecImpl;
use crate::pb_messages::{PbNodeId, PbNodeIdView};

verus! {

/// A cluster-unique node locator: a name and the address the node listens
/// on. It is a plain value and is never changed once made.
#[derive(Debug, Eq, Hash, PartialOrd, Ord)]
pub struct NodeId {
    pub name: String,
    pub addr: String,
}

/// What a `NodeId` is: its two texts.
pub struct NodeIdView {
    pub name: Seq<char>,
    pub addr: Seq<char>,
}

impl NodeIdView {
    /// The wire record of this locator: both fields present.
    pub open spec fn to_pb(self) -> PbNodeIdView {
        PbNodeIdView { name: Some(self.name), addr: Some(self.addr) }
    }

    /// The locator that a wire record stands for. An absent field reads as
    /// the empty text.
    pub open spec fn from_pb(pb: PbNodeIdView) -> NodeIdView {
        NodeIdView { name: text_or_empty(pb.name), addr: text_or_empty(pb.addr) }
    }
}

/// The text of a field, or the empty text where the field is absent.
pub open spec fn text_or_empty(field: Option<Seq<char>>) -> Seq<char> {
    match field {
        Some(text) => text,
        None => Seq::empty(),
    }
}

/// Takes the text out of a field; an absent field gives the empty string.
pub(crate) fn take_text(field: Option<String>) -> (text: String)
    ensures
        text@ == text_or_empty(field.deep_view()),
{
    match field {
        Some(text) => text,
        None => String::new(),
    }
}

impl View for NodeId {
    type V = NodeIdView;

    open spec fn view(&self) -> NodeIdView {
        NodeIdView { name: self.name@, addr: self.addr@ }
    }
}

impl DeepView for NodeId {
    type V = NodeIdView;

    open spec fn deep_view(&self) -> NodeIdView {
        self@
    }
}

impl NodeId {
    /// Makes the locator of the node called `name` that listens on `addr`.
    pub fn new(name: &str, addr: &str) -> (id: NodeId)
        ensures
            id@ == (NodeIdView { name: name@, addr: addr@ }),
    {
        NodeId { name: name.to_owned(), addr: addr.to_owned() }
    }
}

impl NodeId {
    /// Reads a locator from its wire record.
    pub fn from(pb: PbNodeId) -> (id: NodeId)
        ensures
            id@ == NodeIdView::from_pb(pb@),
    {
        NodeId { name: take_text(pb.name), addr: take_text(pb.addr) }
    }
}

impl PbNodeId {
    /// Writes a locator as a wire record.
    pub fn from(id: NodeId) -> (pb: PbNodeId)
        ensures
            pb@ == id@.to_pb(),
    {
        PbNodeId { name: Some(id.name), addr: Some(id.addr) }
    }
}

/// A locator survives the wire unchanged.
pub proof fn lemma_node_id_round_trip(id: NodeIdView)
    ensures
        NodeIdView::from_pb(id.to_pb()) == id,
{
}

impl Clone for NodeId {
    fn clone(&self) -> (id: NodeId)
        ensures
            id@ == self@,
    {
        NodeId { name: self.name.clone(), addr: self.addr.clone() }
    }
}

impl PartialEq for NodeId {
    fn eq(&self, other: &NodeId) -> (b: bool) {
        self.name == other.name && self.addr == other.addr
    }
}

impl PartialEqSpecImpl for NodeId {
    open spec fn obeys_eq_spec() -> bool {
        true
    }

    open spec fn eq_spec(&self, other: &NodeId) -> bool {
        self@ == other@
    }
}

} // verus!
