//! The server role: decides whether to honour a probe request, which address
//! to dial, and what to report once the dial has ended.
//!
//! A request names several addresses; the server dials the first of them that
//! it may dial, and no other.

use crate::rate_limit::{logs_wf, spec_admits, spec_after, spec_exhausted, RateLimiter};
use crate::wire::{
    spec_is_dialable, Address, DialBackResponse, DialError, PeerId, ProbeOutcome, ProbeRequest,
    RefusalReason,
};
use std::collections::HashMap;
use vstd::prelude::*;

verus! {

broadcast use vstd::std_specs::hash::group_hash_axioms;

/// A dial that the server has been asked to make and has not yet answered.
#[derive(Clone, Copy, Debug, PartialEq, Eq, Structural)]
pub struct DialBackAttempt {
    pub nonce: u64,
    pub requester: PeerId,
    pub target: Address,
}

/// How a dial ended, as the transport reports it.
#[derive(Clone, Copy, Debug, PartialEq, Eq, Structural)]
pub enum DialResult {
    Connected { bytes_sent: u64 },
    Failed(DialError),
}

/// What the server does with a request.
#[derive(Clone, Copy, Debug, PartialEq, Eq, Structural)]
pub enum ServerAction {
    /// Answer at once, without dialing.
    Respond(DialBackResponse),
    /// Dial the target, then report the result with `complete_dial`.
    Dial(DialBackAttempt),
    /// Say nothing: the nonce is that of a dial still under way.
    Drop,
}

/// The position of the first address in `addrs` that may be dialed, or the
/// length of `addrs` where there is none.
pub open spec fn spec_first_dialable(addrs: Seq<Address>) -> int
    decreases addrs.len(),
{
    if addrs.len() == 0 {
        0
    } else if spec_is_dialable(addrs[0]) {
        0
    } else {
        1 + spec_first_dialable(addrs.subrange(1, addrs.len() as int))
    }
}

/// `spec_first_dialable` names the first dialable position.
pub proof fn lemma_first_dialable(addrs: Seq<Address>)
    ensures
        0 <= spec_first_dialable(addrs) <= addrs.len(),
        forall|j: int| 0 <= j < spec_first_dialable(addrs) ==> !spec_is_dialable(#[trigger] addrs[j]),
        spec_first_dialable(addrs) < addrs.len() ==> spec_is_dialable(
            addrs[spec_first_dialable(addrs)],
        ),
    decreases addrs.len(),
{
    if addrs.len() > 0 && !spec_is_dialable(addrs[0]) {
        let rest = addrs.subrange(1, addrs.len() as int);
        lemma_first_dialable(rest);
        assert forall|j: int| 0 <= j < spec_first_dialable(addrs) implies !spec_is_dialable(
            #[trigger] addrs[j],
        ) by {
            if j > 0 {
                assert(addrs[j] == rest[j - 1]);
            }
        }
        assert(spec_first_dialable(rest) < rest.len() ==> addrs[spec_first_dialable(addrs)]
            == rest[spec_first_dialable(rest)]);
    }
}

/// The first position in `addrs` that may be dialed, if any.
pub fn first_dialable(addrs: &Vec<Address>) -> (r: Option<usize>)
    ensures
        match r {
            Some(i) => i == spec_first_dialable(addrs@) && i < addrs@.len(),
            None => spec_first_dialable(addrs@) == addrs@.len(),
        },
{
    let mut i: usize = 0;
    while i < addrs.len()
        invariant
            i <= addrs@.len(),
            forall|j: int| 0 <= j < i ==> !spec_is_dialable(#[trigger] addrs@[j]),
        decreases addrs@.len() - i,
    {
        if addrs[i].is_dialable() {
            proof {
                lemma_first_dialable(addrs@);
            }
            return Some(i);
        }
        i += 1;
    }
    proof {
        lemma_first_dialable(addrs@);
    }
    None
}

/// The address that a refusal names: the first one asked for, or the
/// unspecified address where none was.
pub open spec fn spec_refusal_addr(addrs: Seq<Address>) -> Address {
    if addrs.len() > 0 {
        addrs[0]
    } else {
        Address::spec_unspecified()
    }
}

/// The answer that declines a request for `reason`: no bytes sent.
pub open spec fn spec_refusal(nonce: u64, addrs: Seq<Address>, reason: RefusalReason) -> DialBackResponse {
    DialBackResponse {
        nonce,
        tested_addr: spec_refusal_addr(addrs),
        bytes_sent: 0,
        outcome: ProbeOutcome::Refused(reason),
    }
}

/// What the server does with a request, in this order: a requester over its
/// quota is refused; a nonce of a dial under way is dropped; a request whose
/// claimed requester is not the peer that sent it, or that names no dialable
/// address, is refused; else the first dialable address is dialed.
pub open spec fn spec_decide(
    admitted: bool,
    pending: Map<u64, DialBackAttempt>,
    nonce: u64,
    addrs: Seq<Address>,
    hint: PeerId,
    requester: PeerId,
) -> ServerAction {
    if !admitted {
        ServerAction::Respond(spec_refusal(nonce, addrs, RefusalReason::RateLimited))
    } else if pending.contains_key(nonce) {
        ServerAction::Drop
    } else if hint != requester || spec_first_dialable(addrs) >= addrs.len() {
        ServerAction::Respond(spec_refusal(nonce, addrs, RefusalReason::InvalidAddress))
    } else {
        ServerAction::Dial(
            DialBackAttempt { nonce, requester, target: addrs[spec_first_dialable(addrs)] },
        )
    }
}

/// The answer to an attempt whose dial ended with `result`: success only for
/// a connection over which verification bytes went out.
pub open spec fn spec_report(attempt: DialBackAttempt, result: DialResult) -> DialBackResponse {
    match result {
        DialResult::Connected { bytes_sent } => if bytes_sent > 0 {
            DialBackResponse {
                nonce: attempt.nonce,
                tested_addr: attempt.target,
                bytes_sent,
                outcome: ProbeOutcome::Success,
            }
        } else {
            DialBackResponse {
                nonce: attempt.nonce,
                tested_addr: attempt.target,
                bytes_sent: 0,
                outcome: ProbeOutcome::DialFailed(DialError::HandshakeIncomplete),
            }
        },
        DialResult::Failed(e) => DialBackResponse {
            nonce: attempt.nonce,
            tested_addr: attempt.target,
            bytes_sent: 0,
            outcome: ProbeOutcome::DialFailed(e),
        },
    }
}

/// The answer to `attempt` once its dial has ended with `result`.
pub fn report(attempt: DialBackAttempt, result: DialResult) -> (r: DialBackResponse)
    ensures
        r == spec_report(attempt, result),
{
    match result {
        DialResult::Connected { bytes_sent } => {
            if bytes_sent > 0 {
                DialBackResponse {
                    nonce: attempt.nonce,
                    tested_addr: attempt.target,
                    bytes_sent,
                    outcome: ProbeOutcome::Success,
                }
            } else {
                DialBackResponse {
                    nonce: attempt.nonce,
                    tested_addr: attempt.target,
                    bytes_sent: 0,
                    outcome: ProbeOutcome::DialFailed(DialError::HandshakeIncomplete),
                }
            }
        },
        DialResult::Failed(e) => DialBackResponse {
            nonce: attempt.nonce,
            tested_addr: attempt.target,
            bytes_sent: 0,
            outcome: ProbeOutcome::DialFailed(e),
        },
    }
}

/// The server's state: each requester's quota, and the dials under way by
/// nonce.
pub struct DialBackVerifier {
    limiter: RateLimiter,
    pending: HashMap<u64, DialBackAttempt>,
}

impl DialBackVerifier {
    /// The dials under way, by nonce.
    pub closed spec fn pending(&self) -> Map<u64, DialBackAttempt> {
        self.pending@
    }

    /// The times of the last admitted requests, by requester.
    pub closed spec fn admitted(&self) -> Map<u64, Seq<u64>> {
        self.limiter@
    }

    /// How many requests one requester may make per span.
    pub closed spec fn spec_quota(&self) -> u32 {
        self.limiter.spec_quota()
    }

    /// The length of the span.
    pub closed spec fn spec_span(&self) -> u64 {
        self.limiter.spec_span()
    }

    /// Every dial under way is filed under its own nonce and goes to an
    /// address that may be dialed, and every requester's log holds at most
    /// the quota of times, never decreasing.
    pub open spec fn wf(&self) -> bool {
        &&& forall|n: u64| #[trigger]
            self.pending().contains_key(n) ==> self.pending()[n].nonce == n && spec_is_dialable(
                self.pending()[n].target,
            )
        &&& logs_wf(self.admitted(), self.spec_quota())
    }

    /// A server that admits `quota` requests of one requester per `span`.
    pub fn new(quota: u32, span: u64) -> (r: DialBackVerifier)
        ensures
            r.wf(),
            r.pending() == Map::<u64, DialBackAttempt>::empty(),
            r.admitted() == Map::<u64, Seq<u64>>::empty(),
            r.spec_quota() == quota,
            r.spec_span() == span,
    {
        DialBackVerifier { limiter: RateLimiter::new(quota, span), pending: HashMap::new() }
    }

    /// Whether a dial for `nonce` is under way.
    pub fn is_pending(&self, nonce: u64) -> (r: bool)
        ensures
            r == self.pending().contains_key(nonce),
    {
        self.pending.contains_key(&nonce)
    }

    /// Takes the request that `requester` sent at `now`. Every request counts
    /// against the requester's quota. Only the action `Dial` adds a dial under
    /// way.
    pub fn handle_request(&mut self, request: &ProbeRequest, requester: PeerId, now: u64) -> (action:
        ServerAction)
        requires
            old(self).wf(),
        ensures
            final(self).wf(),
            final(self).spec_quota() == old(self).spec_quota(),
            final(self).spec_span() == old(self).spec_span(),
            final(self).admitted() == spec_after(
                old(self).admitted(),
                old(self).spec_quota(),
                old(self).spec_span(),
                requester.id,
                now,
            ),
            action == spec_decide(
                spec_admits(
                    old(self).admitted(),
                    old(self).spec_quota(),
                    old(self).spec_span(),
                    requester.id,
                    now,
                ),
                old(self).pending(),
                request.nonce,
                request.addresses@,
                request.requester_hint,
                requester,
            ),
            final(self).pending() == (match action {
                ServerAction::Dial(a) => old(self).pending().insert(a.nonce, a),
                _ => old(self).pending(),
            }),
    {
        let first = if request.addresses.len() > 0 {
            request.addresses[0]
        } else {
            Address::unspecified()
        };
        if !self.limiter.allow(requester.id, now) {
            return ServerAction::Respond(
                DialBackResponse {
                    nonce: request.nonce,
                    tested_addr: first,
                    bytes_sent: 0,
                    outcome: ProbeOutcome::Refused(RefusalReason::RateLimited),
                },
            );
        }
        if self.pending.contains_key(&request.nonce) {
            return ServerAction::Drop;
        }
        let refusal = DialBackResponse {
            nonce: request.nonce,
            tested_addr: first,
            bytes_sent: 0,
            outcome: ProbeOutcome::Refused(RefusalReason::InvalidAddress),
        };
        if request.requester_hint != requester {
            return ServerAction::Respond(refusal);
        }
        match first_dialable(&request.addresses) {
            None => ServerAction::Respond(refusal),
            Some(i) => {
                let attempt = DialBackAttempt {
                    nonce: request.nonce,
                    requester,
                    target: request.addresses[i],
                };
                proof {
                    lemma_first_dialable(request.addresses@);
                }
                self.pending.insert(request.nonce, attempt);
                ServerAction::Dial(attempt)
            },
        }
    }

    /// Ends the dial for `nonce` with what the transport reported. The answer
    /// is owed exactly once: a nonce with no dial under way gets none.
    pub fn complete_dial(&mut self, nonce: u64, result: DialResult) -> (r: Option<DialBackResponse>)
        requires
            old(self).wf(),
        ensures
            final(self).wf(),
            final(self).spec_quota() == old(self).spec_quota(),
            final(self).spec_span() == old(self).spec_span(),
            final(self).admitted() == old(self).admitted(),
            final(self).pending() == old(self).pending().remove(nonce),
            r == (if old(self).pending().contains_key(nonce) {
                Some(spec_report(old(self).pending()[nonce], result))
            } else {
                None
            }),
    {
        match self.pending.remove(&nonce) {
            Some(attempt) => Some(report(attempt, result)),
            None => None,
        }
    }

    /// Drops the request log of `requester`, as when the peer is gone;
    /// says whether it had one.
    pub fn forget_requester(&mut self, requester: PeerId) -> (had: bool)
        requires
            old(self).wf(),
        ensures
            final(self).wf(),
            final(self).spec_quota() == old(self).spec_quota(),
            final(self).spec_span() == old(self).spec_span(),
            final(self).pending() == old(self).pending(),
            final(self).admitted() == old(self).admitted().remove(requester.id),
            had == old(self).admitted().contains_key(requester.id),
    {
        self.limiter.forget(requester.id)
    }

    /// Gives up the dial for `nonce` without an answer, as when the
    /// requester's connection is gone.
    pub fn abandon(&mut self, nonce: u64) -> (r: bool)
        requires
            old(self).wf(),
        ensures
            final(self).wf(),
            final(self).spec_quota() == old(self).spec_quota(),
            final(self).spec_span() == old(self).spec_span(),
            final(self).admitted() == old(self).admitted(),
            final(self).pending() == old(self).pending().remove(nonce),
            r == old(self).pending().contains_key(nonce),
    {
        self.pending.remove(&nonce).is_some()
    }
}

/// A dial that connected and sent bytes is reported as a success for the
/// dialed address, with those bytes; anything else is never a success.
pub proof fn lemma_success_iff_connected(attempt: DialBackAttempt, result: DialResult)
    ensures
        spec_report(attempt, result).nonce == attempt.nonce,
        spec_report(attempt, result).tested_addr == attempt.target,
        (spec_report(attempt, result).outcome == ProbeOutcome::Success) <==> (result matches DialResult::Connected {
            bytes_sent,
        } && bytes_sent > 0),
        spec_report(attempt, result).outcome == ProbeOutcome::Success ==> spec_report(
            attempt,
            result,
        ).bytes_sent > 0 && result == (DialResult::Connected {
            bytes_sent: spec_report(attempt, result).bytes_sent,
        }),
        result is Failed ==> spec_report(attempt, result).outcome is DialFailed,
{
}

/// A request within the quota that names one dialable address, under a nonce
/// not in use and with the requester's own identity, has that address
/// dialed; and once the dial connected and sent bytes, the answer is a
/// success for that very address, with those bytes.
pub proof fn lemma_reachable_address_succeeds(
    pending: Map<u64, DialBackAttempt>,
    nonce: u64,
    addr: Address,
    requester: PeerId,
    bytes_sent: u64,
)
    requires
        !pending.contains_key(nonce),
        spec_is_dialable(addr),
        bytes_sent > 0,
    ensures
        spec_decide(true, pending, nonce, seq![addr], requester, requester) == ServerAction::Dial(
            DialBackAttempt { nonce, requester, target: addr },
        ),
        spec_report(
            DialBackAttempt { nonce, requester, target: addr },
            DialResult::Connected { bytes_sent },
        ) == (DialBackResponse {
            nonce,
            tested_addr: addr,
            bytes_sent,
            outcome: ProbeOutcome::Success,
        }),
{
    assert(seq![addr][0] == addr);
}

/// While a dial for a nonce is under way, no request under that nonce starts
/// another.
pub proof fn lemma_nonce_dialed_once(
    admitted: bool,
    pending: Map<u64, DialBackAttempt>,
    nonce: u64,
    addrs: Seq<Address>,
    hint: PeerId,
    requester: PeerId,
)
    requires
        pending.contains_key(nonce),
    ensures
        !(spec_decide(admitted, pending, nonce, addrs, hint, requester) is Dial),
{
}

/// A request of a requester that has used up its quota is refused as
/// rate-limited and starts no dial, whatever else it holds, and counts for
/// nothing.
pub proof fn lemma_over_quota_never_dials(
    admitted: Map<u64, Seq<u64>>,
    quota: u32,
    span: u64,
    pending: Map<u64, DialBackAttempt>,
    nonce: u64,
    addrs: Seq<Address>,
    hint: PeerId,
    requester: PeerId,
    now: u64,
)
    requires
        spec_exhausted(admitted, quota, span, requester.id, now),
    ensures
        spec_decide(
            spec_admits(admitted, quota, span, requester.id, now),
            pending,
            nonce,
            addrs,
            hint,
            requester,
        ) == ServerAction::Respond(spec_refusal(nonce, addrs, RefusalReason::RateLimited)),
        spec_after(admitted, quota, span, requester.id, now) == admitted,
{
}

} // verus!
