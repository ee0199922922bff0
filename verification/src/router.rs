//! Where an envelope goes from a node.
//!
//! A node knows the processes that are registered with it, actors and
//! system threads, and the peers it is connected to. From these and the
//! destination of an envelope follows whether the envelope is handed over
//! here, sent on to a peer, answered with an error, or dropped.

use vstd::prelude::*;
use crate::envelope::{reply_to, Envelope, EnvelopeView};
use crate::membership::{Membership, MembershipView};
use crate::msg::{Msg, MsgView, Rpy, RpyView};
use crate::pid::{Pid, PidView};
use crate::user_msg::UserMsg;

verus! {

/// What is registered under a pid.
#[derive(Debug, Clone, Copy, PartialEq, Eq, Structural)]
pub enum Kind {
    /// An actor, which has a mailbox.
    Actor,
    /// A system thread, which has a channel of its own.
    SystemThread,
}

/// Why an envelope cannot be delivered.
#[derive(Debug, Clone, Copy, PartialEq, Eq, Structural)]
pub enum Undeliverable {
    /// The destination is of this node, and nothing is registered under
    /// it.
    NoSuchProcess,
    /// The destination is of a node that is not connected.
    NotConnected,
}

impl Undeliverable {
    /// The text of the error that is sent back.
    pub open spec fn text(self) -> Seq<char> {
        match self {
            Undeliverable::NoSuchProcess => "No such process"@,
            Undeliverable::NotConnected => "Node not connected"@,
        }
    }

    /// Describes the failure in words.
    pub fn description(&self) -> (s: String)
        ensures
            s@ == self.text(),
    {
        match self {
            Undeliverable::NoSuchProcess => "No such process".to_owned(),
            Undeliverable::NotConnected => "Node not connected".to_owned(),
        }
    }
}

/// What becomes of an envelope.
#[derive(Debug, Clone, PartialEq)]
pub enum Delivery<T: UserMsg> {
    /// It goes into the mailbox of the actor it is for.
    Mailbox(Envelope<T>),
    /// It goes onto the channel of the system thread it is for.
    Channel(Envelope<T>),
    /// It is sent on to the node that owns its destination.
    Forward(Envelope<T>),
    /// It cannot be delivered, and this error goes back in its stead. The
    /// error is an envelope like any other and is dispatched in turn.
    Bounce(Envelope<T>),
    /// It cannot be delivered, and there is nobody to tell.
    Drop(Envelope<T>),
}

/// What a `Delivery` is.
pub enum DeliveryView<U> {
    Mailbox(EnvelopeView<U>),
    Channel(EnvelopeView<U>),
    Forward(EnvelopeView<U>),
    Bounce(EnvelopeView<U>),
    Drop(EnvelopeView<U>),
}

impl<T: UserMsg> View for Delivery<T> {
    type V = DeliveryView<T::V>;

    open spec fn view(&self) -> DeliveryView<T::V> {
        match self {
            Delivery::Mailbox(envelope) => DeliveryView::Mailbox(envelope@),
            Delivery::Channel(envelope) => DeliveryView::Channel(envelope@),
            Delivery::Forward(envelope) => DeliveryView::Forward(envelope@),
            Delivery::Bounce(envelope) => DeliveryView::Bounce(envelope@),
            Delivery::Drop(envelope) => DeliveryView::Drop(envelope@),
        }
    }
}

/// What a `Registry` is: the pids that are registered, each with its kind,
/// in the order in which they were registered first.
pub struct RegistryView {
    pub entries: Seq<(PidView, Kind)>,
}

impl RegistryView {
    /// No pid is registered twice.
    pub open spec fn wf(self) -> bool {
        forall|i: int, j: int|
            0 <= i < j < self.entries.len() ==> (#[trigger] self.entries[i]).0 != (
            #[trigger] self.entries[j]).0
    }

    /// What is registered under `pid`, if anything.
    pub open spec fn lookup(self, pid: PidView) -> Option<Kind> {
        if exists|i: int| 0 <= i < self.entries.len() && (#[trigger] self.entries[i]).0 == pid {
            let i = choose|i: int|
                0 <= i < self.entries.len() && (#[trigger] self.entries[i]).0 == pid;
            Some(self.entries[i].1)
        } else {
            None
        }
    }

    /// The registry after `pid` was registered as `kind`: a new entry at
    /// the end, or the old entry with the new kind.
    pub open spec fn register(self, pid: PidView, kind: Kind) -> RegistryView {
        if self.lookup(pid) is Some {
            RegistryView {
                entries: Seq::new(
                    self.entries.len(),
                    |i: int|
                        if self.entries[i].0 == pid {
                            (pid, kind)
                        } else {
                            self.entries[i]
                        },
                ),
            }
        } else {
            RegistryView { entries: self.entries.push((pid, kind)) }
        }
    }
}

/// What becomes of an envelope that cannot be delivered. A request or a
/// payload that carries a token is answered with an error, which goes back
/// by the token. A reply is never answered, and neither is what carries no
/// token: these are dropped.
pub open spec fn refuse<U>(envelope: EnvelopeView<U>, why: Undeliverable) -> DeliveryView<U> {
    if envelope.msg is Rpy {
        DeliveryView::Drop(envelope)
    } else {
        match reply_to(envelope, RpyView::Error(why.text())) {
            Some(error) => DeliveryView::Bounce(error),
            None => DeliveryView::Drop(envelope),
        }
    }
}

/// What becomes of an envelope at a node. What is registered here is
/// looked at first: a system thread may be registered under a pid of any
/// node. Then the owner of the destination decides: this node has no such
/// process, a connected peer is sent the envelope, and for any other node
/// the envelope cannot be delivered.
pub open spec fn dispatch_of<U>(
    table: MembershipView,
    registry: RegistryView,
    envelope: EnvelopeView<U>,
) -> DeliveryView<U> {
    match registry.lookup(envelope.to) {
        Some(Kind::Actor) => DeliveryView::Mailbox(envelope),
        Some(Kind::SystemThread) => DeliveryView::Channel(envelope),
        None => if envelope.to.node == table.me {
            refuse(envelope, Undeliverable::NoSuchProcess)
        } else if table.is_connected(envelope.to.node) {
            DeliveryView::Forward(envelope)
        } else {
            refuse(envelope, Undeliverable::NotConnected)
        },
    }
}

/// The processes that are registered with a node.
#[derive(Debug, Clone)]
pub struct Registry {
    entries: Vec<(Pid, Kind)>,
}

impl View for Registry {
    type V = RegistryView;

    closed spec fn view(&self) -> RegistryView {
        RegistryView { entries: self.entries.deep_view() }
    }
}

impl DeepView for Kind {
    type V = Kind;

    open spec fn deep_view(&self) -> Kind {
        *self
    }
}

impl Registry {
    /// No pid is registered twice.
    pub open spec fn wf(&self) -> bool {
        self@.wf()
    }

    /// A registry with nothing in it.
    pub fn new() -> (registry: Registry)
        ensures
            registry.wf(),
            registry@.entries.len() == 0,
    {
        Registry { entries: Vec::new() }
    }

    fn find(&self, pid: &Pid) -> (at: Option<usize>)
        ensures
            match at {
                Some(i) => i < self@.entries.len() && self@.entries[i as int].0 == pid@,
                None => forall|j: int|
                    0 <= j < self@.entries.len() ==> (#[trigger] self@.entries[j]).0 != pid@,
            },
    {
        let mut i: usize = 0;
        while i < self.entries.len()
            invariant
                i <= self.entries.len(),
                forall|j: int| 0 <= j < i ==> (#[trigger] self@.entries[j]).0 != pid@,
            decreases self.entries.len() - i,
        {
            if self.entries[i].0 == *pid {
                return Some(i);
            }
            i += 1;
        }
        None
    }

    /// What is registered under `pid`, if anything.
    pub fn lookup(&self, pid: &Pid) -> (kind: Option<Kind>)
        requires
            self.wf(),
        ensures
            kind == self@.lookup(pid@),
    {
        match self.find(pid) {
            Some(i) => {
                proof {
                    lemma_lookup(self@, i as int);
                }
                Some(self.entries[i].1)
            },
            None => None,
        }
    }

    /// Registers `pid` as `kind`. A pid that was registered before is
    /// registered anew, with the new kind.
    pub fn register(&mut self, pid: &Pid, kind: Kind)
        requires
            old(self).wf(),
        ensures
            final(self).wf(),
            final(self)@ == old(self)@.register(pid@, kind),
            final(self)@.lookup(pid@) == Some(kind),
    {
        proof {
            lemma_register(self@, pid@, kind);
        }
        match self.find(pid) {
            Some(i) => {
                proof {
                    lemma_lookup(self@, i as int);
                }
                self.entries.set(i, (pid.clone(), kind));
                proof {
                    let before = old(self)@;
                    assert forall|j: int| 0 <= j < before.entries.len() implies self@.entries[j]
                        == before.register(pid@, kind).entries[j] by {
                        if j != i && before.entries[j].0 == pid@ {
                            if j < i {
                                assert(before.entries[j].0 != before.entries[i as int].0);
                            } else {
                                assert(before.entries[i as int].0 != before.entries[j].0);
                            }
                        }
                    }
                    assert(self@.entries =~= before.register(pid@, kind).entries);
                }
            },
            None => {
                self.entries.push((pid.clone(), kind));
                proof {
                    assert(self@.entries =~= old(self)@.register(pid@, kind).entries);
                }
            },
        }
    }

    /// Decides what becomes of `envelope` at the node with this registry
    /// and the membership table `table`.
    pub fn dispatch<T: UserMsg>(&self, table: &Membership, envelope: Envelope<T>) -> (delivery:
        Delivery<T>)
        requires
            self.wf(),
            table.wf(),
        ensures
            delivery@ == dispatch_of(table@, self@, envelope@),
    {
        match self.lookup(&envelope.to) {
            Some(Kind::Actor) => Delivery::Mailbox(envelope),
            Some(Kind::SystemThread) => Delivery::Channel(envelope),
            None => {
                if envelope.to.node == *table.id() {
                    refuse_envelope(envelope, Undeliverable::NoSuchProcess)
                } else if table.is_connected(&envelope.to.node) {
                    Delivery::Forward(envelope)
                } else {
                    refuse_envelope(envelope, Undeliverable::NotConnected)
                }
            },
        }
    }
}

fn refuse_envelope<T: UserMsg>(envelope: Envelope<T>, why: Undeliverable) -> (delivery: Delivery<T>)
    ensures
        delivery@ == refuse(envelope@, why),
{
    let is_reply = match &envelope.msg {
        Msg::Rpy(_) => true,
        _ => false,
    };
    if is_reply {
        return Delivery::Drop(envelope);
    }
    let Envelope { to, from, msg, correlation_id } = envelope;
    match correlation_id {
        Some(id) => Delivery::Bounce(
            Envelope {
                to: id.pid.clone(),
                from: to,
                msg: Msg::Rpy(Rpy::Error(why.description())),
                correlation_id: Some(id),
            },
        ),
        None => Delivery::Drop(Envelope { to, from, msg, correlation_id: None }),
    }
}

/// In a registry without doubles, the kind found at an entry is the kind
/// of its pid.
pub proof fn lemma_lookup(registry: RegistryView, i: int)
    requires
        registry.wf(),
        0 <= i < registry.entries.len(),
    ensures
        registry.lookup(registry.entries[i].0) == Some(registry.entries[i].1),
{
    let pid = registry.entries[i].0;
    let j = choose|j: int| 0 <= j < registry.entries.len() && (#[trigger] registry.entries[j]).0 == pid;
    assert(registry.entries[i].0 == registry.entries[j].0);
    assert(i == j);
}

/// What registering does: the pid is found with its new kind, every other
/// pid is found as before, and no pid is registered twice.
pub proof fn lemma_register(registry: RegistryView, pid: PidView, kind: Kind)
    requires
        registry.wf(),
    ensures
        registry.register(pid, kind).wf(),
        registry.register(pid, kind).lookup(pid) == Some(kind),
        forall|other: PidView|
            other != pid ==> #[trigger] registry.register(pid, kind).lookup(other)
                == registry.lookup(other),
{
    let next = registry.register(pid, kind);
    if registry.lookup(pid) is Some {
        let at = choose|i: int|
            0 <= i < registry.entries.len() && (#[trigger] registry.entries[i]).0 == pid;
        assert forall|i: int| 0 <= i < next.entries.len() implies (#[trigger] next.entries[i]).0
            == registry.entries[i].0 by {}
        assert(next.entries[at] == (pid, kind));
        lemma_lookup(next, at);
        assert forall|other: PidView| other != pid implies #[trigger] next.lookup(other)
            == registry.lookup(other) by {
            if registry.lookup(other) is Some {
                let i = choose|i: int|
                    0 <= i < registry.entries.len() && (#[trigger] registry.entries[i]).0
                        == other;
                assert(next.entries[i] == registry.entries[i]);
                lemma_lookup(next, i);
                lemma_lookup(registry, i);
            }
            if next.lookup(other) is Some {
                let i = choose|i: int|
                    0 <= i < next.entries.len() && (#[trigger] next.entries[i]).0 == other;
                assert(registry.entries[i].0 == other);
            }
        }
    } else {
        let last = registry.entries.len() as int;
        assert(next.entries[last] == (pid, kind));
        assert forall|i: int| 0 <= i < last implies #[trigger] next.entries[i]
            == registry.entries[i] by {}
        assert forall|i: int, j: int| 0 <= i < j < next.entries.len() implies (
        #[trigger] next.entries[i]).0 != (#[trigger] next.entries[j]).0 by {
            if j == last {
                assert(registry.entries[i].0 != pid);
            }
        }
        lemma_lookup(next, last);
        assert forall|other: PidView| other != pid implies #[trigger] next.lookup(other)
            == registry.lookup(other) by {
            if registry.lookup(other) is Some {
                let i = choose|i: int|
                    0 <= i < registry.entries.len() && (#[trigger] registry.entries[i]).0
                        == other;
                assert(next.entries[i] == registry.entries[i]);
                lemma_lookup(next, i);
                lemma_lookup(registry, i);
            }
            if next.lookup(other) is Some {
                let i = choose|i: int|
                    0 <= i < next.entries.len() && (#[trigger] next.entries[i]).0 == other;
                assert(i < last);
                assert(registry.entries[i].0 == other);
            }
        }
    }
}

/// An error is sent back at most once: what went back as an error is a
/// reply, and a reply that cannot be delivered is dropped.
pub proof fn lemma_bounce_once<U>(
    table: MembershipView,
    registry: RegistryView,
    envelope: EnvelopeView<U>,
)
    ensures
        dispatch_of(table, registry, envelope) matches DeliveryView::Bounce(error) ==> {
            &&& envelope.correlation_id is Some
            &&& error.correlation_id == envelope.correlation_id
            &&& error.to == envelope.correlation_id->Some_0.pid
            &&& error.msg is Rpy
            &&& !(dispatch_of(table, registry, error) is Bounce)
        },
{
}

} // verus!
