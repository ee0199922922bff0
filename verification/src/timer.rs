//! The timer of one actor.
//!
//! A request to start the timer arms it; the timer then owes exactly one
//! timeout, which goes back by the token of that request. A request to
//! cancel disarms it. Whether the timeout or the cancellation comes first
//! is decided by their order here: a timer that has fired owes nothing, so
//! a later cancellation changes nothing.

use vstd::prelude::*;
use crate::correlation_id::{CorrelationId, CorrelationIdView};
use crate::envelope::{reply_to, Envelope, EnvelopeView};
use crate::msg::{Msg, MsgView, Req, ReqView, Rpy, RpyView};
use crate::pid::{Pid, PidView};
use crate::user_msg::UserMsg;

verus! {

/// What the clock that drives a timer is asked to do.
#[derive(Debug, Clone, Copy, PartialEq, Eq, Structural)]
pub enum TimerAction {
    /// Call `fire` once, after this many milliseconds.
    Schedule(u64),
    /// Do not call `fire` for what was scheduled.
    Unschedule,
    /// Nothing.
    Idle,
}

/// What an armed timer remembers: whose timer it is, and the token by
/// which the timeout goes back.
pub struct ArmedView {
    pub owner: PidView,
    pub id: CorrelationIdView,
}

/// What a `Timer` is: armed, or not.
pub struct TimerView {
    pub armed: Option<ArmedView>,
}

impl TimerView {
    /// The timer after a request, and what the clock is asked to do. A
    /// request to start that carries a token arms the timer; if it was
    /// armed, the earlier timeout is given up for the new one. A request to
    /// cancel disarms an armed timer. Nothing else concerns the timer.
    pub open spec fn handle<U>(self, request: EnvelopeView<U>) -> (TimerView, TimerAction) {
        match request.msg {
            MsgView::Req(ReqView::StartTimer(ms)) => match request.correlation_id {
                Some(id) => (
                    TimerView { armed: Some(ArmedView { owner: request.to, id }) },
                    TimerAction::Schedule(ms),
                ),
                None => (self, TimerAction::Idle),
            },
            MsgView::Req(ReqView::CancelTimer) => match self.armed {
                Some(_) => (TimerView { armed: None }, TimerAction::Unschedule),
                None => (self, TimerAction::Idle),
            },
            _ => (self, TimerAction::Idle),
        }
    }

    /// The timeout that an armed timer sends when it fires.
    pub open spec fn timeout<U>(self) -> Option<EnvelopeView<U>> {
        match self.armed {
            Some(armed) => Some(
                EnvelopeView {
                    to: armed.id.pid,
                    from: armed.owner,
                    msg: MsgView::Rpy(RpyView::Timeout),
                    correlation_id: Some(armed.id),
                },
            ),
            None => None,
        }
    }
}

/// The timer of one actor.
#[derive(Debug, Clone)]
pub struct Timer {
    armed: Option<(Pid, CorrelationId)>,
}

impl View for Timer {
    type V = TimerView;

    closed spec fn view(&self) -> TimerView {
        TimerView {
            armed: match self.armed {
                Some((owner, id)) => Some(ArmedView { owner: owner@, id: id@ }),
                None => None,
            },
        }
    }
}

impl Timer {
    /// A timer that is not armed.
    pub fn new() -> (timer: Timer)
        ensures
            timer@.armed is None,
    {
        Timer { armed: None }
    }

    /// Whether a timeout is owed.
    pub fn is_armed(&self) -> (armed: bool)
        ensures
            armed == self@.armed is Some,
    {
        self.armed.is_some()
    }

    /// Handles a request to the owner of the timer.
    pub fn handle<T: UserMsg>(&mut self, request: &Envelope<T>) -> (action: TimerAction)
        ensures
            final(self)@ == old(self)@.handle(request@).0,
            action == old(self)@.handle(request@).1,
    {
        match &request.msg {
            Msg::Req(Req::StartTimer(ms)) => match &request.correlation_id {
                Some(id) => {
                    self.armed = Some((request.to.clone(), id.clone()));
                    TimerAction::Schedule(*ms)
                },
                None => TimerAction::Idle,
            },
            Msg::Req(Req::CancelTimer) => {
                if self.armed.is_some() {
                    self.armed = None;
                    TimerAction::Unschedule
                } else {
                    TimerAction::Idle
                }
            },
            _ => TimerAction::Idle,
        }
    }

    /// The clock says that the time is up. An armed timer sends its
    /// timeout and owes nothing any more; one that is not armed sends
    /// nothing.
    pub fn fire<T: UserMsg>(&mut self) -> (timeout: Option<Envelope<T>>)
        ensures
            timeout.deep_view() == old(self)@.timeout::<T::V>(),
            final(self)@.armed is None,
    {
        match self.armed.take() {
            Some((owner, id)) => Some(
                Envelope {
                    to: id.pid.clone(),
                    from: owner,
                    msg: Msg::Rpy(Rpy::Timeout),
                    correlation_id: Some(id),
                },
            ),
            None => None,
        }
    }
}

/// One start, one timeout. After a request to start, the timer sends, when
/// it fires, the timeout that answers that request, and then nothing more
/// however often it fires. If a request to cancel comes before it fires, it
/// sends nothing. If the request to cancel comes after, the timeout is
/// already sent and the cancellation changes nothing.
pub proof fn lemma_one_timeout<U>(timer: TimerView, start: EnvelopeView<U>, cancel: EnvelopeView<U>)
    requires
        start.msg is Req,
        start.msg->Req_0 is StartTimer,
        start.correlation_id is Some,
        cancel.msg == MsgView::<U>::Req(ReqView::CancelTimer),
    ensures
        timer.handle(start).0.timeout::<U>() == reply_to(start, RpyView::Timeout),
        timer.handle(start).1 == TimerAction::Schedule(start.msg->Req_0->StartTimer_0),
        (TimerView { armed: None }).timeout::<U>() is None,
        timer.handle(start).0.handle(cancel).0.timeout::<U>() is None,
        timer.handle(start).0.handle(cancel).1 == TimerAction::Unschedule,
        (TimerView { armed: None }).handle(cancel) == (
            TimerView { armed: None },
            TimerAction::Idle,
        ),
{
}

} // verus!
