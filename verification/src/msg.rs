//! The messages that actors exchange, and their wire form.

use vstd::prelude::*;
use crate::errors::{view_ok, Error};
use crate::metrics::{
    self, all_named, decode_listing, listing_to_pb, Metric, Metrics, Sample,
};
use crate::node_id::{NodeId, NodeIdView};
use crate::pb_messages::{
    present, PbMember, PbMemberView, PbMembers, PbMembersView, PbMetrics, PbMsg, PbMsgView,
    PbNodeId, PbNodeIdView, PbPids,
};
use crate::pid::{Pid, PidView};
use crate::user_msg::{round_trips, UserMsg};

verus! {

/// A message: a request to a node, a reply to one, or a payload of the
/// application.
#[derive(Debug, Clone, PartialEq)]
pub enum Msg<T: UserMsg> {
    Req(Req),
    Rpy(Rpy),
    User(T),
}

/// A request message sent to pids. Not all requests have replies.
#[derive(Debug, Clone, PartialEq)]
pub enum Req {
    GetMetrics,
    /// Time in milliseconds.
    StartTimer(u64),
    CancelTimer,
    Shutdown,
    GetProcesses(NodeId),
    GetServices(NodeId),
    GetMembership,
}

/// A reply message sent to pids.
#[derive(Debug, Clone, PartialEq)]
pub enum Rpy {
    Timeout,
    Metrics(Vec<(String, Metric)>),
    Processes(Vec<Pid>),
    Services(Vec<Pid>),
    Members(Vec<(NodeId, bool)>),
    Error(String),
}

/// One row of a membership table: a node and whether it is connected.
pub type Row = (NodeIdView, bool);

pub enum ReqView {
    GetMetrics,
    StartTimer(u64),
    CancelTimer,
    Shutdown,
    GetProcesses(NodeIdView),
    GetServices(NodeIdView),
    GetMembership,
}

pub enum RpyView {
    Timeout,
    Metrics(Seq<Sample>),
    Processes(Seq<PidView>),
    Services(Seq<PidView>),
    Members(Seq<Row>),
    Error(Seq<char>),
}

pub enum MsgView<U> {
    Req(ReqView),
    Rpy(RpyView),
    User(U),
}

impl View for Req {
    type V = ReqView;

    open spec fn view(&self) -> ReqView {
        match self {
            Req::GetMetrics => ReqView::GetMetrics,
            Req::StartTimer(ms) => ReqView::StartTimer(*ms),
            Req::CancelTimer => ReqView::CancelTimer,
            Req::Shutdown => ReqView::Shutdown,
            Req::GetProcesses(node) => ReqView::GetProcesses(node@),
            Req::GetServices(node) => ReqView::GetServices(node@),
            Req::GetMembership => ReqView::GetMembership,
        }
    }
}

impl DeepView for Req {
    type V = ReqView;

    open spec fn deep_view(&self) -> ReqView {
        self@
    }
}

impl View for Rpy {
    type V = RpyView;

    open spec fn view(&self) -> RpyView {
        match self {
            Rpy::Timeout => RpyView::Timeout,
            Rpy::Metrics(metrics) => RpyView::Metrics(metrics.deep_view()),
            Rpy::Processes(pids) => RpyView::Processes(pids.deep_view()),
            Rpy::Services(pids) => RpyView::Services(pids.deep_view()),
            Rpy::Members(members) => RpyView::Members(members.deep_view()),
            Rpy::Error(text) => RpyView::Error(text@),
        }
    }
}

impl DeepView for Rpy {
    type V = RpyView;

    open spec fn deep_view(&self) -> RpyView {
        self@
    }
}

impl<T: UserMsg> View for Msg<T> {
    type V = MsgView<T::V>;

    open spec fn view(&self) -> MsgView<T::V> {
        match self {
            Msg::Req(req) => MsgView::Req(req@),
            Msg::Rpy(rpy) => MsgView::Rpy(rpy@),
            Msg::User(payload) => MsgView::User(payload@),
        }
    }
}

impl<T: UserMsg> DeepView for Msg<T> {
    type V = MsgView<T::V>;

    open spec fn deep_view(&self) -> MsgView<T::V> {
        self@
    }
}

/// The wire record of one row of a membership table.
pub open spec fn row_to_pb(row: Row) -> PbMemberView {
    PbMemberView { node: Some(row.0.to_pb()), connected: Some(row.1) }
}

/// The row that a wire record stands for. An absent node reads as the
/// locator of two empty texts, an absent flag as not connected.
pub open spec fn row_from_pb(pb: PbMemberView) -> Row {
    (
        match pb.node {
            Some(node) => NodeIdView::from_pb(node),
            None => NodeIdView { name: Seq::empty(), addr: Seq::empty() },
        },
        match pb.connected {
            Some(connected) => connected,
            None => false,
        },
    )
}

/// The wire record of a membership table, row by row.
pub open spec fn rows_to_pb(rows: Seq<Row>) -> PbMembersView {
    PbMembersView { members: Seq::new(rows.len(), |i: int| row_to_pb(rows[i])) }
}

/// The membership table that a wire record stands for, row by row.
pub open spec fn rows_from_pb(pb: PbMembersView) -> Seq<Row> {
    Seq::new(pb.members.len(), |i: int| row_from_pb(pb.members[i]))
}

/// The wire record of a request: the one field of its kind present.
pub open spec fn encode_req(req: ReqView) -> PbMsgView {
    let empty = PbMsgView::empty();
    match req {
        ReqView::GetMembership => PbMsgView { get_membership: Some(true), ..empty },
        ReqView::GetMetrics => PbMsgView { get_metrics: Some(true), ..empty },
        ReqView::StartTimer(ms) => PbMsgView { start_timer: Some(ms), ..empty },
        ReqView::CancelTimer => PbMsgView { cancel_timer: Some(true), ..empty },
        ReqView::Shutdown => PbMsgView { shutdown: Some(true), ..empty },
        ReqView::GetProcesses(node) => PbMsgView { get_processes: Some(node.to_pb()), ..empty },
        ReqView::GetServices(node) => PbMsgView { get_services: Some(node.to_pb()), ..empty },
    }
}

/// The wire record of a reply: the one field of its kind present.
pub open spec fn encode_rpy(rpy: RpyView) -> PbMsgView {
    let empty = PbMsgView::empty();
    match rpy {
        RpyView::Timeout => PbMsgView { timeout: Some(true), ..empty },
        RpyView::Error(text) => PbMsgView { error: Some(text), ..empty },
        RpyView::Metrics(listing) => PbMsgView { metrics: Some(listing_to_pb(listing)), ..empty },
        RpyView::Processes(pids) => PbMsgView {
            processes: Some(PidView::list_to_pb(pids)),
            ..empty
        },
        RpyView::Services(pids) => PbMsgView { services: Some(PidView::list_to_pb(pids)), ..empty },
        RpyView::Members(rows) => PbMsgView { members: Some(rows_to_pb(rows)), ..empty },
    }
}

/// The wire record of a message. Only a payload that its type refuses to
/// write as bytes has none; the failure is then the one of the payload.
pub open spec fn encode_msg<T: UserMsg>(msg: MsgView<T::V>) -> Result<PbMsgView, Error> {
    match msg {
        MsgView::User(payload) => match T::encoding(payload) {
            Ok(bytes) => Ok(PbMsgView { user_msg: Some(bytes), ..PbMsgView::empty() }),
            Err(e) => Err(e),
        },
        MsgView::Req(req) => Ok(encode_req(req)),
        MsgView::Rpy(rpy) => Ok(encode_rpy(rpy)),
    }
}

/// The request that a wire record stands for, if any of the request fields
/// is present; the first present one of them decides, in this order.
pub open spec fn decode_req(pb: PbMsgView) -> Option<ReqView> {
    if pb.get_membership is Some {
        Some(ReqView::GetMembership)
    } else if pb.start_timer is Some {
        Some(ReqView::StartTimer(pb.start_timer->Some_0))
    } else if pb.cancel_timer is Some {
        Some(ReqView::CancelTimer)
    } else if pb.get_metrics is Some {
        Some(ReqView::GetMetrics)
    } else if pb.shutdown is Some {
        Some(ReqView::Shutdown)
    } else if pb.get_processes is Some {
        Some(ReqView::GetProcesses(NodeIdView::from_pb(pb.get_processes->Some_0)))
    } else if pb.get_services is Some {
        Some(ReqView::GetServices(NodeIdView::from_pb(pb.get_services->Some_0)))
    } else {
        None
    }
}

/// The reply that a wire record stands for, if any of the reply fields is
/// present; the first present one of them decides, in this order. A
/// metrics listing that cannot be decoded makes the whole record fail.
pub open spec fn decode_rpy(pb: PbMsgView) -> Option<Result<RpyView, Error>> {
    if pb.timeout is Some {
        Some(Ok(RpyView::Timeout))
    } else if pb.error is Some {
        Some(Ok(RpyView::Error(pb.error->Some_0)))
    } else if pb.metrics is Some {
        Some(
            match decode_listing(pb.metrics->Some_0) {
                Ok(listing) => Ok(RpyView::Metrics(listing)),
                Err(e) => Err(e),
            },
        )
    } else if pb.processes is Some {
        Some(Ok(RpyView::Processes(PidView::list_from_pb(pb.processes->Some_0))))
    } else if pb.services is Some {
        Some(Ok(RpyView::Services(PidView::list_from_pb(pb.services->Some_0))))
    } else if pb.members is Some {
        Some(Ok(RpyView::Members(rows_from_pb(pb.members->Some_0))))
    } else {
        None
    }
}

/// The message that a wire record stands for. Presence is looked at in a
/// fixed order: the user payload first, then the requests, then the
/// replies. The first field that is present decides; a record with no field
/// present stands for nothing.
pub open spec fn decode_msg<T: UserMsg>(pb: PbMsgView) -> Result<MsgView<T::V>, Error> {
    if pb.user_msg is Some {
        match T::decoding(pb.user_msg->Some_0) {
            Ok(payload) => Ok(MsgView::User(payload)),
            Err(e) => Err(e),
        }
    } else if decode_req(pb) is Some {
        Ok(MsgView::Req(decode_req(pb)->Some_0))
    } else if decode_rpy(pb) is Some {
        match decode_rpy(pb)->Some_0 {
            Ok(rpy) => Ok(MsgView::Rpy(rpy)),
            Err(e) => Err(e),
        }
    } else {
        Err(Error::UnknownMessage)
    }
}

/// The message that a wire record stands for when records with more than
/// one field present are refused instead of read in order.
pub open spec fn decode_msg_exact<T: UserMsg>(pb: PbMsgView) -> Result<MsgView<T::V>, Error> {
    if pb.fields_set() > 1 {
        Err(Error::AmbiguousMessage)
    } else {
        decode_msg::<T>(pb)
    }
}

impl PbMembers {
    /// Writes a membership table as a wire record, row by row.
    pub fn from(members: Vec<(NodeId, bool)>) -> (pb: PbMembers)
        ensures
            pb@ == rows_to_pb(members.deep_view()),
    {
        let ghost goal = rows_to_pb(members.deep_view()).members;
        let mut records: Vec<PbMember> = Vec::new();
        for row in iter: members.into_iter()
            invariant
                iter.seq().len() == goal.len(),
                forall|i: int|
                    0 <= i < goal.len() ==> row_to_pb(iter.seq()[i].deep_view()) == goal[i],
                records.len() == iter.index(),
                forall|i: int| 0 <= i < records.len() ==> records[i]@ == goal[i],
        {
            records.push(PbMember { node: Some(PbNodeId::from(row.0)), connected: Some(row.1) });
        }
        assert(records.deep_view() =~= goal);
        PbMembers { members: records }
    }

    /// Reads a membership table from its wire record, row by row.
    pub fn into_rows(self) -> (members: Vec<(NodeId, bool)>)
        ensures
            members.deep_view() == rows_from_pb(self@),
    {
        let ghost goal = rows_from_pb(self@);
        let mut members: Vec<(NodeId, bool)> = Vec::new();
        for record in iter: self.members.into_iter()
            invariant
                iter.seq().len() == goal.len(),
                forall|i: int| 0 <= i < goal.len() ==> row_from_pb(iter.seq()[i]@) == goal[i],
                members.len() == iter.index(),
                forall|i: int| 0 <= i < members.len() ==> members[i].deep_view() == goal[i],
        {
            let node = match record.node {
                Some(node) => NodeId::from(node),
                None => NodeId { name: String::new(), addr: String::new() },
            };
            let connected = match record.connected {
                Some(connected) => connected,
                None => false,
            };
            members.push((node, connected));
        }
        assert(members.deep_view() =~= goal);
        members
    }
}

impl Req {
    /// Writes a request as a wire record.
    pub fn into_pb(self) -> (pb: PbMsg)
        ensures
            pb@ == encode_req(self@),
    {
        let mut pb = PbMsg::new();
        match self {
            Req::GetMembership => {
                pb.get_membership = Some(true);
            },
            Req::GetMetrics => {
                pb.get_metrics = Some(true);
            },
            Req::StartTimer(time_in_ms) => {
                pb.start_timer = Some(time_in_ms);
            },
            Req::CancelTimer => {
                pb.cancel_timer = Some(true);
            },
            Req::Shutdown => {
                pb.shutdown = Some(true);
            },
            Req::GetProcesses(node_id) => {
                pb.get_processes = Some(PbNodeId::from(node_id));
            },
            Req::GetServices(node_id) => {
                pb.get_services = Some(PbNodeId::from(node_id));
            },
        }
        pb
    }
}

impl Rpy {
    /// The answer to a request for the metrics of `source`.
    pub fn metrics<M: Metrics>(source: &M) -> (rpy: Rpy)
        ensures
            rpy@ == RpyView::Metrics(source.listing()),
    {
        Rpy::Metrics(source.data())
    }

    /// Writes a reply as a wire record.
    pub fn into_pb(self) -> (pb: PbMsg)
        ensures
            pb@ == encode_rpy(self@),
    {
        let mut pb = PbMsg::new();
        match self {
            Rpy::Timeout => {
                pb.timeout = Some(true);
            },
            Rpy::Error(error) => {
                pb.error = Some(error);
            },
            Rpy::Metrics(metrics) => {
                pb.metrics = Some(PbMetrics::from(metrics));
            },
            Rpy::Processes(pids) => {
                pb.processes = Some(PbPids::from(pids));
            },
            Rpy::Services(pids) => {
                pb.services = Some(PbPids::from(pids));
            },
            Rpy::Members(members) => {
                pb.members = Some(PbMembers::from(members));
            },
        }
        pb
    }
}

impl PbMsg {
    /// Writes a message as a wire record. This fails only where the
    /// payload type refuses to write its payload.
    pub fn try_from<T: UserMsg>(msg: Msg<T>) -> (r: Result<PbMsg, Error>)
        ensures
            view_ok(r) == encode_msg::<T>(msg@),
    {
        match msg {
            Msg::User(user_msg) => match user_msg.to_bytes() {
                Ok(bytes) => {
                    let mut pb = PbMsg::new();
                    pb.user_msg = Some(bytes);
                    Ok(pb)
                },
                Err(e) => Err(e),
            },
            Msg::Req(req) => Ok(req.into_pb()),
            Msg::Rpy(rpy) => Ok(rpy.into_pb()),
        }
    }
}

impl<T: UserMsg> Msg<T> {
    /// Reads a message from its wire record. The user payload is looked
    /// for first, then each request, then each reply; the first field that
    /// is present decides what the message is.
    pub fn try_from(pb: PbMsg) -> (r: Result<Msg<T>, Error>)
        ensures
            view_ok(r) == decode_msg::<T>(pb@),
    {
        let PbMsg {
            user_msg,
            get_membership,
            start_timer,
            cancel_timer,
            get_metrics,
            shutdown,
            get_processes,
            get_services,
            timeout,
            error,
            metrics,
            processes,
            services,
            members,
        } = pb;

        // The user level message type
        if let Some(encoded) = user_msg {
            return match T::from_bytes(encoded) {
                Ok(payload) => Ok(Msg::User(payload)),
                Err(e) => Err(e),
            };
        }
        // Requests

        if get_membership.is_some() {
            return Ok(Msg::Req(Req::GetMembership));
        }
        if let Some(time_in_ms) = start_timer {
            return Ok(Msg::Req(Req::StartTimer(time_in_ms)));
        }
        if cancel_timer.is_some() {
            return Ok(Msg::Req(Req::CancelTimer));
        }
        if get_metrics.is_some() {
            return Ok(Msg::Req(Req::GetMetrics));
        }
        if shutdown.is_some() {
            return Ok(Msg::Req(Req::Shutdown));
        }
        if let Some(node) = get_processes {
            return Ok(Msg::Req(Req::GetProcesses(NodeId::from(node))));
        }
        if let Some(node) = get_services {
            return Ok(Msg::Req(Req::GetServices(NodeId::from(node))));
        }
        // Replies

        if timeout.is_some() {
            return Ok(Msg::Rpy(Rpy::Timeout));
        }
        if let Some(text) = error {
            return Ok(Msg::Rpy(Rpy::Error(text)));
        }
        if let Some(listing) = metrics {
            return match metrics::try_from(listing) {
                Ok(listing) => Ok(Msg::Rpy(Rpy::Metrics(listing))),
                Err(e) => Err(e),
            };
        }
        if let Some(pids) = processes {
            return Ok(Msg::Rpy(Rpy::Processes(Pid::list_from(pids))));
        }
        if let Some(pids) = services {
            return Ok(Msg::Rpy(Rpy::Services(Pid::list_from(pids))));
        }
        if let Some(rows) = members {
            return Ok(Msg::Rpy(Rpy::Members(rows.into_rows())));
        }
        Err(Error::UnknownMessage)
    }

    /// Reads a message from its wire record as `try_from` does, but
    /// refuses a record in which more than one field is present.
    pub fn try_from_exact(pb: PbMsg) -> (r: Result<Msg<T>, Error>)
        ensures
            view_ok(r) == decode_msg_exact::<T>(pb@),
    {
        if pb.fields_set() > 1 {
            Err(Error::AmbiguousMessage)
        } else {
            Msg::try_from(pb)
        }
    }
}

/// A membership table survives the wire unchanged, order included.
pub proof fn lemma_rows_round_trip(rows: Seq<Row>)
    ensures
        rows_from_pb(rows_to_pb(rows)) == rows,
{
    assert(rows_from_pb(rows_to_pb(rows)) =~= rows);
}

/// The wire record of a message has exactly one field present.
pub proof fn lemma_encode_sets_one_field<T: UserMsg>(msg: MsgView<T::V>)
    requires
        encode_msg::<T>(msg) is Ok,
    ensures
        encode_msg::<T>(msg)->Ok_0.fields_set() == 1,
{
    reveal(present);
}

/// What can go wrong when a message is written: nothing but a payload that
/// its type refuses to write, and then with the failure of the payload.
pub proof fn lemma_encode_total<T: UserMsg>(msg: MsgView<T::V>)
    ensures
        encode_msg::<T>(msg) is Err <==> (msg is User && T::encoding(msg->User_0) is Err),
        encode_msg::<T>(msg) is Err ==> encode_msg::<T>(msg)->Err_0 == T::encoding(
            msg->User_0,
        )->Err_0,
{
}

/// The messages that can survive the wire: a payload has to obey the law of
/// its type, and a metrics listing must not hold an empty name, which the
/// wire form refuses.
pub open spec fn wire_safe<T: UserMsg>(msg: MsgView<T::V>) -> bool {
    match msg {
        MsgView::User(payload) => round_trips::<T>(payload),
        MsgView::Rpy(RpyView::Metrics(listing)) => all_named(listing),
        _ => true,
    }
}

/// A message that was written to the wire is read back unchanged, by the
/// reader that goes by order and by the one that refuses ambiguous records
/// alike.
pub proof fn lemma_msg_round_trip<T: UserMsg>(msg: MsgView<T::V>)
    requires
        wire_safe::<T>(msg),
        encode_msg::<T>(msg) is Ok,
    ensures
        decode_msg::<T>(encode_msg::<T>(msg)->Ok_0) == Ok::<MsgView<T::V>, Error>(msg),
        decode_msg_exact::<T>(encode_msg::<T>(msg)->Ok_0) == Ok::<MsgView<T::V>, Error>(msg),
{
    lemma_encode_sets_one_field::<T>(msg);
    match msg {
        MsgView::User(payload) => {},
        MsgView::Req(req) => {
            match req {
                ReqView::GetProcesses(node) => crate::node_id::lemma_node_id_round_trip(node),
                ReqView::GetServices(node) => crate::node_id::lemma_node_id_round_trip(node),
                _ => {},
            }
        },
        MsgView::Rpy(rpy) => {
            match rpy {
                RpyView::Metrics(listing) => metrics::lemma_metrics_round_trip(listing),
                RpyView::Processes(pids) => crate::pid::lemma_pids_round_trip(pids),
                RpyView::Services(pids) => crate::pid::lemma_pids_round_trip(pids),
                RpyView::Members(rows) => lemma_rows_round_trip(rows),
                _ => {},
            }
        },
    }
}

} // verus!
