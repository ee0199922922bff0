//! The token that binds a reply to the request it answers.

use vstd::prelude::*;
use vstd::std_specs::cmp::PartialEqSpecImpl;
use crate::errors::{view_ok, Error};
use crate::pb_messages::{PbCorrelationId, PbCorrelationIdView, PbPid};
use crate::pid::{Pid, PidView};

verus! {

/// A token made by whoever issues a request and copied, unchanged, into the
/// reply. It names the process that waits for the reply and, where the
/// reply has to leave through an outside channel, that channel's
/// connection; `request` tells the requests of one issuer apart.
#[derive(Debug, Eq, Hash, PartialOrd, Ord)]
pub struct CorrelationId {
    pub pid: Pid,
    pub connection: Option<u64>,
    pub request: Option<u64>,
}

/// What a `CorrelationId` is.
pub struct CorrelationIdView {
    pub pid: PidView,
    pub connection: Option<u64>,
    pub request: Option<u64>,
}

/// Where a reply is handed over.
#[derive(Debug, Clone, Copy, PartialEq, Eq, Structural)]
pub enum ReplyRoute {
    /// To the mailbox of the actor that the token names.
    Mailbox,
    /// To the outside channel with this connection.
    Channel(u64),
}

impl CorrelationIdView {
    /// The route of a reply that carries this token: an outside channel
    /// where the token holds a connection, the actor's mailbox where it
    /// holds none.
    pub open spec fn route(self) -> ReplyRoute {
        match self.connection {
            Some(connection) => ReplyRoute::Channel(connection),
            None => ReplyRoute::Mailbox,
        }
    }

    /// The wire record of this token: the process present, the two numbers
    /// where the token holds them.
    pub open spec fn to_pb(self) -> PbCorrelationIdView {
        PbCorrelationIdView {
            pid: Some(self.pid.to_pb()),
            connection: self.connection,
            request: self.request,
        }
    }

    /// The token that a wire record stands for; a record that names no
    /// process stands for none.
    pub open spec fn from_pb(pb: PbCorrelationIdView) -> Result<CorrelationIdView, Error> {
        match pb.pid {
            Some(pid) => Ok(
                CorrelationIdView {
                    pid: PidView::from_pb(pid),
                    connection: pb.connection,
                    request: pb.request,
                },
            ),
            None => Err(Error::NoCorrelationPid),
        }
    }
}

impl View for CorrelationId {
    type V = CorrelationIdView;

    open spec fn view(&self) -> CorrelationIdView {
        CorrelationIdView { pid: self.pid@, connection: self.connection, request: self.request }
    }
}

impl DeepView for CorrelationId {
    type V = CorrelationIdView;

    open spec fn deep_view(&self) -> CorrelationIdView {
        self@
    }
}

impl CorrelationId {
    /// A token for a reply that goes to the mailbox of `pid`.
    pub fn pid(pid: Pid) -> (id: CorrelationId)
        ensures
            id@ == (CorrelationIdView { pid: pid@, connection: None, request: None }),
    {
        CorrelationId { pid, connection: None, request: None }
    }

    /// A token for a reply that leaves through the channel `connection`,
    /// which `pid` owns.
    pub fn connection(pid: Pid, connection: u64) -> (id: CorrelationId)
        ensures
            id@ == (CorrelationIdView { pid: pid@, connection: Some(connection), request: None }),
    {
        CorrelationId { pid, connection: Some(connection), request: None }
    }

    /// A token for request number `request` on the channel `connection`,
    /// which `pid` owns.
    pub fn request(pid: Pid, connection: u64, request: u64) -> (id: CorrelationId)
        ensures
            id@ == (CorrelationIdView {
                pid: pid@,
                connection: Some(connection),
                request: Some(request),
            }),
    {
        CorrelationId { pid, connection: Some(connection), request: Some(request) }
    }

    /// Where a reply that carries this token is handed over.
    pub fn route(&self) -> (route: ReplyRoute)
        ensures
            route == self@.route(),
    {
        match self.connection {
            Some(connection) => ReplyRoute::Channel(connection),
            None => ReplyRoute::Mailbox,
        }
    }

    /// Reads a token from its wire record.
    pub fn try_from(pb: PbCorrelationId) -> (r: Result<CorrelationId, Error>)
        ensures
            view_ok(r) == CorrelationIdView::from_pb(pb@),
    {
        match pb.pid {
            Some(pid) => Ok(
                CorrelationId {
                    pid: Pid::from(pid),
                    connection: pb.connection,
                    request: pb.request,
                },
            ),
            None => Err(Error::NoCorrelationPid),
        }
    }
}

impl PbCorrelationId {
    /// Writes a token as a wire record.
    pub fn from(id: CorrelationId) -> (pb: PbCorrelationId)
        ensures
            pb@ == id@.to_pb(),
    {
        PbCorrelationId {
            pid: Some(PbPid::from(id.pid)),
            connection: id.connection,
            request: id.request,
        }
    }
}

/// A token survives the wire unchanged.
pub proof fn lemma_correlation_id_round_trip(id: CorrelationIdView)
    ensures
        CorrelationIdView::from_pb(id.to_pb()) == Ok::<CorrelationIdView, Error>(id),
{
}

impl Clone for CorrelationId {
    fn clone(&self) -> (id: CorrelationId)
        ensures
            id@ == self@,
    {
        CorrelationId {
            pid: self.pid.clone(),
            connection: self.connection,
            request: self.request,
        }
    }
}

impl PartialEq for CorrelationId {
    fn eq(&self, other: &CorrelationId) -> (b: bool) {
        self.pid == other.pid && self.connection == other.connection && self.request
            == other.request
    }
}

impl PartialEqSpecImpl for CorrelationId {
    open spec fn obeys_eq_spec() -> bool {
        true
    }

    open spec fn eq_spec(&self, other: &CorrelationId) -> bool {
        self@ == other@
    }
}

} // verus!
