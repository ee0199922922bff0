//! The requests of one issuer that still wait for their reply.

use vstd::prelude::*;
use crate::correlation_id::{CorrelationId, CorrelationIdView};
use crate::errors::Error;
use crate::pid::{Pid, PidView};

verus! {

/// What an `Outstanding` is: who issues, on which connection, the number
/// of the next request, and the numbers that wait for a reply.
pub struct OutstandingView {
    pub owner: PidView,
    pub connection: u64,
    pub next: u64,
    pub waiting: Set<u64>,
}

impl OutstandingView {
    /// Every number that waits was issued: it is below the next one.
    pub open spec fn wf(self) -> bool {
        forall|request: u64| #[trigger] self.waiting.contains(request) ==> request < self.next
    }

    /// The token of the next request.
    pub open spec fn fresh(self) -> CorrelationIdView {
        CorrelationIdView {
            pid: self.owner,
            connection: Some(self.connection),
            request: Some(self.next),
        }
    }

    /// The state after the next request was issued.
    pub open spec fn issued(self) -> OutstandingView {
        OutstandingView {
            next: (self.next + 1) as u64,
            waiting: self.waiting.insert(self.next),
            ..self
        }
    }

    /// A request with this token waits for its reply.
    pub open spec fn is_waiting(self, id: CorrelationIdView) -> bool {
        &&& id.pid == self.owner
        &&& id.connection == Some(self.connection)
        &&& id.request is Some
        &&& self.waiting.contains(id.request->Some_0)
    }

    /// The state after the reply with this token came.
    pub open spec fn settled(self, id: CorrelationIdView) -> OutstandingView {
        OutstandingView { waiting: self.waiting.remove(id.request->Some_0), ..self }
    }
}

/// The requests of one issuer that still wait for their reply. Each
/// request gets a token that no request of this issuer had before, and a
/// reply is accepted once, for the request whose token it carries.
#[derive(Debug, Clone)]
pub struct Outstanding {
    owner: Pid,
    connection: u64,
    next: u64,
    waiting: Vec<u64>,
}

impl View for Outstanding {
    type V = OutstandingView;

    closed spec fn view(&self) -> OutstandingView {
        OutstandingView {
            owner: self.owner@,
            connection: self.connection,
            next: self.next,
            waiting: self.waiting@.to_set(),
        }
    }
}

impl Outstanding {
    /// No number waits twice, and every number that waits was issued.
    pub closed spec fn wf(&self) -> bool {
        &&& self.waiting@.no_duplicates()
        &&& self@.wf()
    }

    /// A well-formed tracker has a well-formed view.
    pub proof fn lemma_wf(&self)
        requires
            self.wf(),
        ensures
            self@.wf(),
    {
    }

    /// The tracker of the requests that `owner` issues on `connection`;
    /// none waits yet.
    pub fn new(owner: Pid, connection: u64) -> (tracker: Outstanding)
        ensures
            tracker.wf(),
            tracker@ == (OutstandingView {
                owner: owner@,
                connection,
                next: 0,
                waiting: Set::empty(),
            }),
    {
        let tracker = Outstanding { owner, connection, next: 0, waiting: Vec::new() };
        assert(tracker.waiting@.to_set() =~= Set::<u64>::empty());
        tracker
    }

    /// How many requests wait for their reply.
    pub fn len(&self) -> (n: usize)
        requires
            self.wf(),
        ensures
            n == self@.waiting.len(),
    {
        proof {
            self.waiting@.unique_seq_to_set();
        }
        self.waiting.len()
    }

    /// Issues the token of a new request, which then waits for its reply.
    /// This fails, and changes nothing, once every number was used.
    pub fn issue(&mut self) -> (r: Result<CorrelationId, Error>)
        requires
            old(self).wf(),
        ensures
            final(self).wf(),
            match r {
                Ok(id) => {
                    &&& old(self)@.next < u64::MAX
                    &&& id@ == old(self)@.fresh()
                    &&& final(self)@ == old(self)@.issued()
                },
                Err(e) => {
                    &&& e == Error::CorrelationExhausted
                    &&& old(self)@.next == u64::MAX
                    &&& final(self)@ == old(self)@
                },
            },
    {
        if self.next == u64::MAX {
            return Err(Error::CorrelationExhausted);
        }
        let request = self.next;
        let id = CorrelationId::request(self.owner.clone(), self.connection, request);
        let ghost before = self.waiting@;
        self.waiting.push(request);
        self.next = request + 1;
        proof {
            assert(!before.contains(request)) by {
                if before.contains(request) {
                    assert(before.to_set().contains(request));
                }
            }
            assert(self.waiting@.to_set() =~= before.to_set().insert(request)) by {
                assert forall|x: u64| self.waiting@.to_set().contains(x)
                    == before.to_set().insert(request).contains(x) by {
                    if before.contains(x) {
                        let k = choose|k: int| 0 <= k < before.len() && before[k] == x;
                        assert(self.waiting@[k] == x);
                    }
                    if x == request {
                        assert(self.waiting@[before.len() as int] == x);
                    }
                }
            }
            assert(self.waiting@.no_duplicates());
        }
        Ok(id)
    }

    /// Takes in the reply with the token `id`. It is accepted where a
    /// request with that token waits, which then waits no longer. Any other
    /// reply (to a token of somebody else, to one that was never issued, a
    /// second one to a request already answered) is an anomaly: it is
    /// refused, and nothing changes.
    pub fn settle(&mut self, id: &CorrelationId) -> (accepted: bool)
        requires
            old(self).wf(),
        ensures
            final(self).wf(),
            accepted == old(self)@.is_waiting(id@),
            final(self)@ == if accepted {
                old(self)@.settled(id@)
            } else {
                old(self)@
            },
    {
        let request = match id.request {
            Some(request) => request,
            None => {
                return false;
            },
        };
        let same_connection = match id.connection {
            Some(connection) => connection == self.connection,
            None => false,
        };
        if !same_connection || !(id.pid == self.owner) {
            return false;
        }
        let mut i: usize = 0;
        while i < self.waiting.len()
            invariant
                *self == *old(self),
                self.wf(),
                id.request == Some(request),
                id.pid@ == self.owner@,
                id.connection == Some(self.connection),
                i <= self.waiting.len(),
                forall|k: int| 0 <= k < i ==> self.waiting@[k] != request,
            decreases self.waiting.len() - i,
        {
            if self.waiting[i] == request {
                let ghost before = self.waiting@;
                self.waiting.remove(i);
                proof {
                    assert(self.waiting@ == before.remove(i as int));
                    assert(self.waiting@.to_set() =~= before.to_set().remove(request)) by {
                        assert forall|x: u64| self.waiting@.to_set().contains(x)
                            == before.to_set().remove(request).contains(x) by {
                            if self.waiting@.contains(x) {
                                let k = choose|k: int|
                                    0 <= k < self.waiting@.len() && self.waiting@[k] == x;
                                if k < i {
                                    assert(before[k] == x);
                                } else {
                                    assert(before[k + 1] == x);
                                }
                                assert(before.contains(x));
                                assert(x != request);
                            }
                            if before.contains(x) && x != request {
                                let k = choose|k: int| 0 <= k < before.len() && before[k] == x;
                                if k < i {
                                    assert(self.waiting@[k] == x);
                                } else {
                                    assert(self.waiting@[k - 1] == x);
                                }
                            }
                        }
                    }
                    assert(before.to_set().contains(request));
                }
                return true;
            }
            i += 1;
        }
        proof {
            if self.waiting@.contains(request) {
                let k = choose|k: int| 0 <= k < self.waiting@.len() && self.waiting@[k] == request;
                assert(false);
            }
        }
        false
    }
}

/// Correlation uniqueness. A token that is issued is one that no waiting
/// request has. So of two requests that wait at the same time each has a
/// token of its own; the reply to one is accepted for that one and leaves
/// the other waiting; and a second reply to the same request finds nothing
/// waiting.
pub proof fn lemma_tokens_are_unique(tracker: OutstandingView, other: CorrelationIdView)
    requires
        tracker.wf(),
        tracker.next < u64::MAX,
    ensures
        !tracker.is_waiting(tracker.fresh()),
        tracker.issued().wf(),
        tracker.issued().is_waiting(tracker.fresh()),
        tracker.is_waiting(other) ==> other != tracker.fresh() && tracker.issued().is_waiting(
            other,
        ),
        tracker.is_waiting(other) ==> tracker.issued().settled(tracker.fresh()).is_waiting(other),
        tracker.is_waiting(other) ==> tracker.issued().settled(other).is_waiting(
            tracker.fresh(),
        ),
        !tracker.issued().settled(tracker.fresh()).is_waiting(tracker.fresh()),
{
}

} // verus!
