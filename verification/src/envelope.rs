//! The unit that is routed between actors.

use vstd::prelude::*;
use crate::correlation_id::{CorrelationId, CorrelationIdView};
use crate::errors::{view_ok, Error};
use crate::msg::{decode_msg, encode_msg, wire_safe, Msg, MsgView, Rpy, RpyView};
use crate::pb_messages::{PbCorrelationId, PbEnvelope, PbEnvelopeView, PbMsg, PbPid};
use crate::pid::{Pid, PidView};
use crate::user_msg::UserMsg;

verus! {

/// An addressed message: where it goes, where it comes from, what it says,
/// and the token that a reply to it has to carry. An envelope is made once
/// and then only moved.
#[derive(Debug, Clone, PartialEq)]
pub struct Envelope<T: UserMsg> {
    pub to: Pid,
    pub from: Pid,
    pub msg: Msg<T>,
    pub correlation_id: Option<CorrelationId>,
}

/// What an `Envelope` is.
pub struct EnvelopeView<U> {
    pub to: PidView,
    pub from: PidView,
    pub msg: MsgView<U>,
    pub correlation_id: Option<CorrelationIdView>,
}

impl<T: UserMsg> View for Envelope<T> {
    type V = EnvelopeView<T::V>;

    open spec fn view(&self) -> EnvelopeView<T::V> {
        EnvelopeView {
            to: self.to@,
            from: self.from@,
            msg: self.msg@,
            correlation_id: self.correlation_id.deep_view(),
        }
    }
}

impl<T: UserMsg> DeepView for Envelope<T> {
    type V = EnvelopeView<T::V>;

    open spec fn deep_view(&self) -> EnvelopeView<T::V> {
        self@
    }
}

/// The reply to a request, as an envelope: it goes to the process that the
/// request's token names, comes from the process that the request went to,
/// and carries the token unchanged. A request without a token cannot be
/// replied to.
pub open spec fn reply_to<U>(request: EnvelopeView<U>, rpy: RpyView) -> Option<EnvelopeView<U>> {
    match request.correlation_id {
        Some(id) => Some(
            EnvelopeView {
                to: id.pid,
                from: request.to,
                msg: MsgView::Rpy(rpy),
                correlation_id: Some(id),
            },
        ),
        None => None,
    }
}

/// The wire record of an envelope: every field present but the token,
/// which is present where the envelope holds one.
pub open spec fn encode_envelope<T: UserMsg>(envelope: EnvelopeView<T::V>) -> Result<
    PbEnvelopeView,
    Error,
> {
    match encode_msg::<T>(envelope.msg) {
        Ok(msg) => Ok(
            PbEnvelopeView {
                to: Some(envelope.to.to_pb()),
                from: Some(envelope.from.to_pb()),
                msg: Some(msg),
                cid: match envelope.correlation_id {
                    Some(id) => Some(id.to_pb()),
                    None => None,
                },
            },
        ),
        Err(e) => Err(e),
    }
}

/// The envelope that a wire record stands for. Destination, source and
/// message have to be present, in this order of complaint; then the message
/// has to decode, and then the token, if there is one.
pub open spec fn decode_envelope<T: UserMsg>(pb: PbEnvelopeView) -> Result<
    EnvelopeView<T::V>,
    Error,
> {
    if pb.to is None {
        Err(Error::NoDestination)
    } else if pb.from is None {
        Err(Error::NoSource)
    } else if pb.msg is None {
        Err(Error::NoMessage)
    } else {
        match decode_msg::<T>(pb.msg->Some_0) {
            Err(e) => Err(e),
            Ok(msg) => match pb.cid {
                None => Ok(
                    EnvelopeView {
                        to: PidView::from_pb(pb.to->Some_0),
                        from: PidView::from_pb(pb.from->Some_0),
                        msg,
                        correlation_id: None,
                    },
                ),
                Some(cid) => match CorrelationIdView::from_pb(cid) {
                    Err(e) => Err(e),
                    Ok(id) => Ok(
                        EnvelopeView {
                            to: PidView::from_pb(pb.to->Some_0),
                            from: PidView::from_pb(pb.from->Some_0),
                            msg,
                            correlation_id: Some(id),
                        },
                    ),
                },
            },
        }
    }
}

impl<T: UserMsg> Envelope<T> {
    /// Makes an envelope. This never fails.
    pub fn new(to: Pid, from: Pid, msg: Msg<T>, correlation_id: Option<CorrelationId>) -> (envelope:
        Envelope<T>)
        ensures
            envelope@ == (EnvelopeView {
                to: to@,
                from: from@,
                msg: msg@,
                correlation_id: correlation_id.deep_view(),
            }),
    {
        Envelope { to, from, msg, correlation_id }
    }

    /// Makes the envelope that answers this one with `rpy`, or nothing
    /// where this envelope carries no token to answer by.
    pub fn reply(self, rpy: Rpy) -> (answer: Option<Envelope<T>>)
        ensures
            answer.deep_view() == reply_to(self@, rpy@),
    {
        match self.correlation_id {
            Some(id) => Some(
                Envelope {
                    to: id.pid.clone(),
                    from: self.to,
                    msg: Msg::Rpy(rpy),
                    correlation_id: Some(id),
                },
            ),
            None => None,
        }
    }

    /// Reads an envelope from its wire record.
    pub fn try_from(pb: PbEnvelope) -> (r: Result<Envelope<T>, Error>)
        ensures
            view_ok(r) == decode_envelope::<T>(pb@),
    {
        let PbEnvelope { to, from, msg, cid } = pb;
        let to = match to {
            Some(to) => Pid::from(to),
            None => {
                return Err(Error::NoDestination);
            },
        };
        let from = match from {
            Some(from) => Pid::from(from),
            None => {
                return Err(Error::NoSource);
            },
        };
        let msg = match msg {
            Some(msg) => match Msg::try_from(msg) {
                Ok(msg) => msg,
                Err(e) => {
                    return Err(e);
                },
            },
            None => {
                return Err(Error::NoMessage);
            },
        };
        let correlation_id = match cid {
            Some(cid) => match CorrelationId::try_from(cid) {
                Ok(id) => Some(id),
                Err(e) => {
                    return Err(e);
                },
            },
            None => None,
        };
        Ok(Envelope { to, from, msg, correlation_id })
    }
}

impl PbEnvelope {
    /// Writes an envelope as a wire record. This fails only where the
    /// payload type refuses to write its payload.
    pub fn try_from<T: UserMsg>(envelope: Envelope<T>) -> (r: Result<PbEnvelope, Error>)
        ensures
            view_ok(r) == encode_envelope::<T>(envelope@),
    {
        let Envelope { to, from, msg, correlation_id } = envelope;
        let msg = match PbMsg::try_from(msg) {
            Ok(msg) => msg,
            Err(e) => {
                return Err(e);
            },
        };
        let cid = match correlation_id {
            Some(id) => Some(PbCorrelationId::from(id)),
            None => None,
        };
        Ok(PbEnvelope { to: Some(PbPid::from(to)), from: Some(PbPid::from(from)), msg: Some(msg), cid })
    }
}

/// An envelope that was written to the wire is read back unchanged: same
/// destination, source, message and token.
pub proof fn lemma_envelope_round_trip<T: UserMsg>(envelope: EnvelopeView<T::V>)
    requires
        wire_safe::<T>(envelope.msg),
        encode_envelope::<T>(envelope) is Ok,
    ensures
        decode_envelope::<T>(encode_envelope::<T>(envelope)->Ok_0) == Ok::<
            EnvelopeView<T::V>,
            Error,
        >(envelope),
{
    crate::msg::lemma_msg_round_trip::<T>(envelope.msg);
    crate::pid::lemma_pid_round_trip(envelope.to);
    crate::pid::lemma_pid_round_trip(envelope.from);
}

/// Writing an envelope fails exactly where its payload cannot be written.
pub proof fn lemma_envelope_encode_total<T: UserMsg>(envelope: EnvelopeView<T::V>)
    ensures
        encode_envelope::<T>(envelope) is Err <==> (envelope.msg is User && T::encoding(
            envelope.msg->User_0,
        ) is Err),
{
}

/// Replies do not cross: the reply to a request carries that request's
/// token, so the replies to two requests with different tokens carry
/// different tokens, and each is told from the other by it.
pub proof fn lemma_replies_keep_their_token<U>(
    first: EnvelopeView<U>,
    second: EnvelopeView<U>,
    first_rpy: RpyView,
    second_rpy: RpyView,
)
    requires
        first.correlation_id is Some,
        second.correlation_id is Some,
        first.correlation_id != second.correlation_id,
    ensures
        reply_to(first, first_rpy) is Some,
        reply_to(second, second_rpy) is Some,
        reply_to(first, first_rpy)->Some_0.correlation_id == first.correlation_id,
        reply_to(second, second_rpy)->Some_0.correlation_id == second.correlation_id,
        reply_to(first, first_rpy)->Some_0.correlation_id != second.correlation_id,
        reply_to(second, second_rpy)->Some_0.correlation_id != first.correlation_id,
{
}

} // verus!
