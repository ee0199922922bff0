//! The records that travel between nodes.
//!
//! A record is sparse: each of its fields may be absent. What a message is
//! follows from which fields are present, never from their order.

use vstd::prelude::*;

verus! {

/// The wire form of a node locator.
#[derive(Debug, Clone, PartialEq)]
pub struct PbNodeId {
    pub name: Option<String>,
    pub addr: Option<String>,
}

pub struct PbNodeIdView {
    pub name: Option<Seq<char>>,
    pub addr: Option<Seq<char>>,
}

impl View for PbNodeId {
    type V = PbNodeIdView;

    open spec fn view(&self) -> PbNodeIdView {
        PbNodeIdView { name: self.name.deep_view(), addr: self.addr.deep_view() }
    }
}

impl DeepView for PbNodeId {
    type V = PbNodeIdView;

    open spec fn deep_view(&self) -> PbNodeIdView {
        self@
    }
}

/// The wire form of a process identifier.
#[derive(Debug, Clone, PartialEq)]
pub struct PbPid {
    pub name: Option<String>,
    pub group: Option<String>,
    pub node: Option<PbNodeId>,
}

pub struct PbPidView {
    pub name: Option<Seq<char>>,
    pub group: Option<Seq<char>>,
    pub node: Option<PbNodeIdView>,
}

impl View for PbPid {
    type V = PbPidView;

    open spec fn view(&self) -> PbPidView {
        PbPidView {
            name: self.name.deep_view(),
            group: self.group.deep_view(),
            node: self.node.deep_view(),
        }
    }
}

impl DeepView for PbPid {
    type V = PbPidView;

    open spec fn deep_view(&self) -> PbPidView {
        self@
    }
}

/// The wire form of a list of process identifiers.
#[derive(Debug, Clone, PartialEq)]
pub struct PbPids {
    pub pids: Vec<PbPid>,
}

pub struct PbPidsView {
    pub pids: Seq<PbPidView>,
}

impl View for PbPids {
    type V = PbPidsView;

    open spec fn view(&self) -> PbPidsView {
        PbPidsView { pids: self.pids.deep_view() }
    }
}

impl DeepView for PbPids {
    type V = PbPidsView;

    open spec fn deep_view(&self) -> PbPidsView {
        self@
    }
}

/// The value tag of a metrics record: exactly one kind of value.
#[derive(Debug, Clone, Copy, PartialEq, Eq, Structural)]
pub enum PbMetricValue {
    Gauge(i64),
    Counter(u64),
    /// Recognised on the wire, not decoded yet.
    Histogram,
}

impl View for PbMetricValue {
    type V = PbMetricValue;

    open spec fn view(&self) -> PbMetricValue {
        *self
    }
}

impl DeepView for PbMetricValue {
    type V = PbMetricValue;

    open spec fn deep_view(&self) -> PbMetricValue {
        *self
    }
}

/// The wire form of one metric: a name and one value tag.
#[derive(Debug, Clone, PartialEq)]
pub struct PbMetric {
    pub name: Option<String>,
    pub value: Option<PbMetricValue>,
}

pub struct PbMetricView {
    pub name: Option<Seq<char>>,
    pub value: Option<PbMetricValue>,
}

impl View for PbMetric {
    type V = PbMetricView;

    open spec fn view(&self) -> PbMetricView {
        PbMetricView { name: self.name.deep_view(), value: self.value }
    }
}

impl DeepView for PbMetric {
    type V = PbMetricView;

    open spec fn deep_view(&self) -> PbMetricView {
        self@
    }
}

/// The wire form of a metrics listing, in the order of the listing.
#[derive(Debug, Clone, PartialEq)]
pub struct PbMetrics {
    pub metrics: Vec<PbMetric>,
}

pub struct PbMetricsView {
    pub metrics: Seq<PbMetricView>,
}

impl View for PbMetrics {
    type V = PbMetricsView;

    open spec fn view(&self) -> PbMetricsView {
        PbMetricsView { metrics: self.metrics.deep_view() }
    }
}

impl DeepView for PbMetrics {
    type V = PbMetricsView;

    open spec fn deep_view(&self) -> PbMetricsView {
        self@
    }
}

/// The wire form of one row of a membership table.
#[derive(Debug, Clone, PartialEq)]
pub struct PbMember {
    pub node: Option<PbNodeId>,
    pub connected: Option<bool>,
}

pub struct PbMemberView {
    pub node: Option<PbNodeIdView>,
    pub connected: Option<bool>,
}

impl View for PbMember {
    type V = PbMemberView;

    open spec fn view(&self) -> PbMemberView {
        PbMemberView { node: self.node.deep_view(), connected: self.connected }
    }
}

impl DeepView for PbMember {
    type V = PbMemberView;

    open spec fn deep_view(&self) -> PbMemberView {
        self@
    }
}

/// The wire form of a membership table.
#[derive(Debug, Clone, PartialEq)]
pub struct PbMembers {
    pub members: Vec<PbMember>,
}

pub struct PbMembersView {
    pub members: Seq<PbMemberView>,
}

impl View for PbMembers {
    type V = PbMembersView;

    open spec fn view(&self) -> PbMembersView {
        PbMembersView { members: self.members.deep_view() }
    }
}

impl DeepView for PbMembers {
    type V = PbMembersView;

    open spec fn deep_view(&self) -> PbMembersView {
        self@
    }
}

/// The wire form of a message: one optional field for the user payload and
/// one for each request and each reply. A well-formed record has exactly
/// one of them present.
#[derive(Debug, Clone, PartialEq)]
pub struct PbMsg {
    pub user_msg: Option<Vec<u8>>,
    pub get_membership: Option<bool>,
    pub start_timer: Option<u64>,
    pub cancel_timer: Option<bool>,
    pub get_metrics: Option<bool>,
    pub shutdown: Option<bool>,
    pub get_processes: Option<PbNodeId>,
    pub get_services: Option<PbNodeId>,
    pub timeout: Option<bool>,
    pub error: Option<String>,
    pub metrics: Option<PbMetrics>,
    pub processes: Option<PbPids>,
    pub services: Option<PbPids>,
    pub members: Option<PbMembers>,
}

pub struct PbMsgView {
    pub user_msg: Option<Seq<u8>>,
    pub get_membership: Option<bool>,
    pub start_timer: Option<u64>,
    pub cancel_timer: Option<bool>,
    pub get_metrics: Option<bool>,
    pub shutdown: Option<bool>,
    pub get_processes: Option<PbNodeIdView>,
    pub get_services: Option<PbNodeIdView>,
    pub timeout: Option<bool>,
    pub error: Option<Seq<char>>,
    pub metrics: Option<PbMetricsView>,
    pub processes: Option<PbPidsView>,
    pub services: Option<PbPidsView>,
    pub members: Option<PbMembersView>,
}

impl View for PbMsg {
    type V = PbMsgView;

    open spec fn view(&self) -> PbMsgView {
        PbMsgView {
            user_msg: match self.user_msg {
                Some(b) => Some(b@),
                None => None,
            },
            get_membership: self.get_membership,
            start_timer: self.start_timer,
            cancel_timer: self.cancel_timer,
            get_metrics: self.get_metrics,
            shutdown: self.shutdown,
            get_processes: self.get_processes.deep_view(),
            get_services: self.get_services.deep_view(),
            timeout: self.timeout,
            error: self.error.deep_view(),
            metrics: self.metrics.deep_view(),
            processes: self.processes.deep_view(),
            services: self.services.deep_view(),
            members: self.members.deep_view(),
        }
    }
}

impl DeepView for PbMsg {
    type V = PbMsgView;

    open spec fn deep_view(&self) -> PbMsgView {
        self@
    }
}

impl PbMsgView {
    /// The record in which no field is present.
    pub open spec fn empty() -> PbMsgView {
        PbMsgView {
            user_msg: None,
            get_membership: None,
            start_timer: None,
            cancel_timer: None,
            get_metrics: None,
            shutdown: None,
            get_processes: None,
            get_services: None,
            timeout: None,
            error: None,
            metrics: None,
            processes: None,
            services: None,
            members: None,
        }
    }

    /// How many of the fields are present.
    pub open spec fn fields_set(self) -> nat {
        present(self.user_msg) + present(self.get_membership) + present(self.start_timer)
            + present(self.cancel_timer) + present(self.get_metrics) + present(self.shutdown)
            + present(self.get_processes) + present(self.get_services) + present(self.timeout)
            + present(self.error) + present(self.metrics) + present(self.processes) + present(
            self.services,
        ) + present(self.members)
    }
}

/// One where the field is present, zero where it is absent.
#[verifier::opaque]
pub open spec fn present<T>(field: Option<T>) -> nat {
    if field is Some {
        1
    } else {
        0
    }
}

/// A field is present in a record's view exactly when it is present in the
/// record.
pub proof fn lemma_present_in_view<T: DeepView>(field: Option<T>)
    ensures
        present(field.deep_view()) == present(field),
{
    reveal(present);
}

fn count_present<T>(field: &Option<T>) -> (n: usize)
    ensures
        n == present(*field),
        n <= 1,
{
    reveal(present);
    if field.is_some() {
        1
    } else {
        0
    }
}

impl PbMsg {
    /// The record in which no field is present.
    pub fn new() -> (pb: PbMsg)
        ensures
            pb@ == PbMsgView::empty(),
    {
        PbMsg {
            user_msg: None,
            get_membership: None,
            start_timer: None,
            cancel_timer: None,
            get_metrics: None,
            shutdown: None,
            get_processes: None,
            get_services: None,
            timeout: None,
            error: None,
            metrics: None,
            processes: None,
            services: None,
            members: None,
        }
    }

    /// Counts the fields that are present.
    pub fn fields_set(&self) -> (n: usize)
        ensures
            n == self@.fields_set(),
    {
        proof {
            assert(present(self@.user_msg) == present(self.user_msg)) by {
                reveal(present);
            }
            lemma_present_in_view(self.get_processes);
            lemma_present_in_view(self.get_services);
            lemma_present_in_view(self.error);
            lemma_present_in_view(self.metrics);
            lemma_present_in_view(self.processes);
            lemma_present_in_view(self.services);
            lemma_present_in_view(self.members);
        }
        let mut n: usize = count_present(&self.user_msg);
        n = n + count_present(&self.get_membership);
        n = n + count_present(&self.start_timer);
        n = n + count_present(&self.cancel_timer);
        n = n + count_present(&self.get_metrics);
        n = n + count_present(&self.shutdown);
        n = n + count_present(&self.get_processes);
        n = n + count_present(&self.get_services);
        n = n + count_present(&self.timeout);
        n = n + count_present(&self.error);
        n = n + count_present(&self.metrics);
        n = n + count_present(&self.processes);
        n = n + count_present(&self.services);
        n = n + count_present(&self.members);
        n
    }
}

/// The wire form of a correlation token.
#[derive(Debug, Clone, PartialEq)]
pub struct PbCorrelationId {
    pub pid: Option<PbPid>,
    pub connection: Option<u64>,
    pub request: Option<u64>,
}

pub struct PbCorrelationIdView {
    pub pid: Option<PbPidView>,
    pub connection: Option<u64>,
    pub request: Option<u64>,
}

impl View for PbCorrelationId {
    type V = PbCorrelationIdView;

    open spec fn view(&self) -> PbCorrelationIdView {
        PbCorrelationIdView {
            pid: self.pid.deep_view(),
            connection: self.connection,
            request: self.request,
        }
    }
}

impl DeepView for PbCorrelationId {
    type V = PbCorrelationIdView;

    open spec fn deep_view(&self) -> PbCorrelationIdView {
        self@
    }
}

/// The wire form of an envelope.
#[derive(Debug, Clone, PartialEq)]
pub struct PbEnvelope {
    pub to: Option<PbPid>,
    pub from: Option<PbPid>,
    pub msg: Option<PbMsg>,
    pub cid: Option<PbCorrelationId>,
}

pub struct PbEnvelopeView {
    pub to: Option<PbPidView>,
    pub from: Option<PbPidView>,
    pub msg: Option<PbMsgView>,
    pub cid: Option<PbCorrelationIdView>,
}

impl View for PbEnvelope {
    type V = PbEnvelopeView;

    open spec fn view(&self) -> PbEnvelopeView {
        PbEnvelopeView {
            to: self.to.deep_view(),
            from: self.from.deep_view(),
            msg: self.msg.deep_view(),
            cid: self.cid.deep_view(),
        }
    }
}

impl DeepView for PbEnvelope {
    type V = PbEnvelopeView;

    open spec fn deep_view(&self) -> PbEnvelopeView {
        self@
    }
}

} // verus!
