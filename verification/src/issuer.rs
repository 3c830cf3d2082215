//! The request issuer: allocates the connection's request identifiers and
//! encodes each outgoing request.
//!
//! Identifiers start at zero and increase by one per request; within one
//! connection no identifier is ever issued twice. The issuer also turns the
//! response that resolved a call into the caller's result.

use vstd::prelude::*;
use crate::codec::{encode_request, opt_seq, spec_encode_request};
use crate::messages::{DeribitError, InboundMessage, MsgView};

verus! {

/// Allocates request identifiers — monotonically increasing from zero —
/// and encodes the request that carries each.
pub struct RequestIssuer {
    id: i64,
    issued: Ghost<Seq<int>>,
}

impl RequestIssuer {
    /// The identifiers issued so far, in order of issue.
    pub closed spec fn issued(&self) -> Seq<int> {
        self.issued@
    }

    /// The identifier the next request will carry.
    pub closed spec fn next_id(&self) -> int {
        self.id as int
    }

    /// Every issued identifier lies below the counter, and the history
    /// strictly increases.
    pub closed spec fn wf(&self) -> bool {
        &&& 0 <= self.id
        &&& forall|j: int| 0 <= j < self.issued@.len() ==> 0 <= #[trigger] self.issued@[j]
            < self.id as int
        &&& forall|j: int, k: int| 0 <= j < k < self.issued@.len() ==> self.issued@[j]
            < self.issued@[k]
    }

    /// A fresh issuer: the first request will carry identifier zero.
    pub fn new() -> (r: Self)
        ensures
            r.wf(),
            r.next_id() == 0,
            r.issued() =~= Seq::<int>::empty(),
    {
        RequestIssuer { id: 0, issued: Ghost(Seq::empty()) }
    }

    /// The counter's current value: the identifier the next request will
    /// carry.
    pub fn current_id(&self) -> (r: i64)
        ensures
            r as int == self.next_id(),
    {
        self.id
    }

    /// Allocate the next identifier and encode the request that carries it.
    /// The identifier returned is the counter's value at the call, the
    /// counter then increases by one, and the encoded frame is exactly
    /// [`spec_encode_request`] of the arguments.
    pub fn next_request(&mut self, method: &Vec<u8>, params: &Option<Vec<u8>>) -> (r: (i64, Vec<u8>))
        requires
            old(self).wf(),
            old(self).next_id() < i64::MAX,
        ensures
            final(self).wf(),
            r.0 as int == old(self).next_id(),
            final(self).next_id() == old(self).next_id() + 1,
            final(self).issued() == old(self).issued().push(old(self).next_id()),
            r.1@ == spec_encode_request(old(self).next_id(), method@, opt_seq(params)),
    {
        let id = self.id;
        let payload = encode_request(id, method, params);
        self.id = self.id + 1;
        proof {
            self.issued@ = self.issued@.push(id as int);
        }
        (id, payload)
    }
}

/// No identifier is ever reused: two different issues — two concurrent
/// calls — never share an identifier.
pub proof fn lemma_ids_never_reused(issuer: &RequestIssuer, j: int, k: int)
    requires
        issuer.wf(),
        0 <= j < issuer.issued().len(),
        0 <= k < issuer.issued().len(),
        j != k,
    ensures
        issuer.issued()[j] != issuer.issued()[k],
{
    if j < k {
        assert(issuer.issued()[j] < issuer.issued()[k]);
    } else {
        assert(issuer.issued()[k] < issuer.issued()[j]);
    }
}

/// Turn the response that resolved a call into the caller's result: a
/// reply's payload, or the remote error's code and message. A notification
/// never resolves a call, so none is handed in.
pub fn interpret_response(resp: InboundMessage) -> (r: Result<Vec<u8>, DeribitError>)
    requires
        !(resp@ is Notification),
    ensures
        (match resp@ {
            MsgView::Reply { id, result } => r matches Ok(v) && v@ == result,
            MsgView::ErrorReply { id, code, message } => r matches Err(
                DeribitError::RemoteError { code: c, message: m },
            ) && c as int == code && m@ == message,
            MsgView::Notification { .. } => true,
        }),
{
    match resp {
        InboundMessage::Reply { result, .. } => Ok(result),
        InboundMessage::ErrorReply { code, message, .. } => Err(
            DeribitError::RemoteError { code, message },
        ),
        InboundMessage::Notification { .. } => {
            proof {
                assert(false);
            }
            Err(DeribitError::CancelledError)
        },
    }
}

} // verus!
