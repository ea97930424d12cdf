//! The client role: picks a server and a candidate address, issues a probe
//! under a nonce, and records the answer that matches it.

use crate::address_book::{
    distinct, earlier, spec_mark, spec_newly_confirmed, spec_next_to_test, tested_before,
    AddressBook, CandidateAddress,
};
use crate::nonce::fresh_nonce;
use crate::wire::{Address, DialBackResponse, PeerId, ProbeOutcome, ProbeRequest};
use std::collections::HashMap;
use vstd::prelude::*;

verus! {

broadcast use vstd::std_specs::hash::group_hash_axioms;

/// What the client keeps of one server: when it was last probed (`None`
/// while never) and how long to wait between two probes of it.
#[derive(Clone, Copy, Debug, PartialEq, Eq, Structural)]
pub struct PeerProbeState {
    pub server: PeerId,
    pub last_probe: Option<u64>,
    pub interval: u64,
}

/// A probe that was sent and is neither answered nor timed out.
#[derive(Clone, Copy, Debug, PartialEq, Eq, Structural)]
pub struct Outstanding {
    pub nonce: u64,
    pub server: PeerId,
    pub addr: Address,
    pub deadline: u64,
}

/// The life of one request: sent, then exactly one of the other three.
#[derive(Clone, Copy, Debug, PartialEq, Eq, Structural)]
pub enum RequestState {
    Sent,
    MatchedOk,
    MatchedErr,
    TimedOut,
}

/// What the client reports when a request ends.
#[derive(Clone, Copy, Debug, PartialEq, Eq, Structural)]
pub enum ClientEvent {
    /// The server answered. `newly_confirmed` says that this answer
    /// confirmed an address that was not confirmed before.
    Probed {
        server: PeerId,
        tested_addr: Address,
        bytes_sent: u64,
        outcome: ProbeOutcome,
        newly_confirmed: bool,
    },
    /// No answer came in time: nothing is known of the address.
    TimedOut { server: PeerId, tested_addr: Address },
}

/// The state in which the request that `e` reports of has ended.
pub open spec fn spec_state_after(e: ClientEvent) -> RequestState {
    match e {
        ClientEvent::Probed { outcome, .. } => if outcome == ProbeOutcome::Success {
            RequestState::MatchedOk
        } else {
            RequestState::MatchedErr
        },
        ClientEvent::TimedOut { .. } => RequestState::TimedOut,
    }
}

impl ClientEvent {
    /// The state in which the request has ended: never `Sent`.
    pub fn state(&self) -> (r: RequestState)
        ensures
            r == spec_state_after(*self),
            r != RequestState::Sent,
    {
        match self {
            ClientEvent::Probed { outcome, .. } => {
                if *outcome == ProbeOutcome::Success {
                    RequestState::MatchedOk
                } else {
                    RequestState::MatchedErr
                }
            },
            ClientEvent::TimedOut { .. } => RequestState::TimedOut,
        }
    }
}

/// Whether `s` tracks the server `peer`.
pub open spec fn tracks(s: Seq<PeerProbeState>, peer: PeerId) -> bool {
    exists|i: int| 0 <= i < s.len() && (#[trigger] s[i]).server == peer
}

/// The position of `peer` in `s`, where it is tracked.
pub open spec fn server_position(s: Seq<PeerProbeState>, peer: PeerId) -> int {
    choose|i: int| 0 <= i < s.len() && (#[trigger] s[i]).server == peer
}

/// No server is tracked twice.
pub open spec fn distinct_servers(s: Seq<PeerProbeState>) -> bool {
    forall|i: int, j: int|
        0 <= i < s.len() && 0 <= j < s.len() && i != j ==> (#[trigger] s[i]).server != (
        #[trigger] s[j]).server
}

/// Whether the server may be probed at `now`: never probed, or its interval
/// has passed since the last probe.
pub open spec fn spec_due(p: PeerProbeState, now: u64) -> bool {
    match p.last_probe {
        None => true,
        Some(t) => now >= t && now - t >= p.interval,
    }
}

/// Whether position `i` holds the server to probe next at `now`: of those
/// due the one probed longest ago, and of several such the first.
pub open spec fn is_next_server(s: Seq<PeerProbeState>, i: int, now: u64) -> bool {
    &&& 0 <= i < s.len()
    &&& spec_due(s[i], now)
    &&& forall|j: int|
        0 <= j < s.len() && spec_due(#[trigger] s[j], now) ==> !tested_before(
            s[j].last_probe,
            s[i].last_probe,
        )
    &&& forall|j: int|
        0 <= j < i && spec_due(#[trigger] s[j], now) ==> tested_before(
            s[i].last_probe,
            s[j].last_probe,
        )
}

/// The position of the server to probe next at `now`, where one is due.
pub open spec fn spec_next_server(s: Seq<PeerProbeState>, now: u64) -> Option<int> {
    if exists|i: int| is_next_server(s, i, now) {
        Some(choose|i: int| is_next_server(s, i, now))
    } else {
        None
    }
}

/// At most one position holds the server to probe next.
pub proof fn lemma_next_server_unique(s: Seq<PeerProbeState>, i: int, j: int, now: u64)
    requires
        is_next_server(s, i, now),
        is_next_server(s, j, now),
    ensures
        i == j,
{
    if i < j {
        assert(tested_before(s[j].last_probe, s[i].last_probe));
    } else if j < i {
        assert(tested_before(s[i].last_probe, s[j].last_probe));
    }
}

/// The time `timeout` after `now`, at most the last instant there is.
pub open spec fn spec_deadline(now: u64, timeout: u64) -> u64 {
    if now + timeout <= u64::MAX {
        (now + timeout) as u64
    } else {
        u64::MAX
    }
}

/// Whether the answer `resp` that came from `from` matches a probe in `out`:
/// its nonce is outstanding, it comes from the server that was asked, and,
/// unless it is a refusal, it speaks of the address that was to be tested.
pub open spec fn spec_matches(out: Map<u64, Outstanding>, from: PeerId, resp: DialBackResponse) -> bool {
    &&& out.contains_key(resp.nonce)
    &&& out[resp.nonce].server == from
    &&& (resp.outcome is Refused || resp.tested_addr == out[resp.nonce].addr)
}

/// Whether `nonce` is held back at `now`: its probe timed out, and the
/// instant from which it may be used again has not come.
pub open spec fn spec_held_back(retired: Map<u64, u64>, nonce: u64, now: u64) -> bool {
    retired.contains_key(nonce) && now < retired[nonce]
}

/// The client's state: its candidate addresses, the servers it knows, the
/// probes under way by nonce, and the nonces of probes that timed out, each
/// with the instant from which it may be used again.
pub struct ProbeScheduler {
    local: PeerId,
    interval: u64,
    timeout: u64,
    grace: u64,
    book: AddressBook,
    servers: Vec<PeerProbeState>,
    outstanding: HashMap<u64, Outstanding>,
    retired: HashMap<u64, u64>,
}

impl ProbeScheduler {
    /// The candidate addresses, in the order in which they were added.
    pub closed spec fn addresses(&self) -> Seq<CandidateAddress> {
        self.book@
    }

    /// The servers, in the order in which they were added.
    pub closed spec fn servers(&self) -> Seq<PeerProbeState> {
        self.servers@
    }

    /// The probes under way, by nonce.
    pub closed spec fn outstanding(&self) -> Map<u64, Outstanding> {
        self.outstanding@
    }

    /// The nonces of probes that timed out, each with the instant from which
    /// it may be used again.
    pub closed spec fn retired(&self) -> Map<u64, u64> {
        self.retired@
    }

    /// For how long the nonce of a probe that timed out is held back, so that
    /// a late answer to it is never taken for the answer to a new probe.
    pub closed spec fn spec_grace(&self) -> u64 {
        self.grace
    }

    /// The identity under which the client asks.
    pub closed spec fn spec_local(&self) -> PeerId {
        self.local
    }

    /// The time between two probes of one server.
    pub closed spec fn spec_interval(&self) -> u64 {
        self.interval
    }

    /// The time after which an unanswered probe is given up.
    pub closed spec fn spec_timeout(&self) -> u64 {
        self.timeout
    }

    /// Whether `next` has the settings of `self`.
    pub open spec fn same_settings(&self, next: &ProbeScheduler) -> bool {
        &&& next.spec_local() == self.spec_local()
        &&& next.spec_interval() == self.spec_interval()
        &&& next.spec_timeout() == self.spec_timeout()
        &&& next.spec_grace() == self.spec_grace()
    }

    /// No address and no server stands twice, and every probe under way is
    /// filed under its own nonce.
    pub open spec fn wf(&self) -> bool {
        &&& distinct(self.addresses())
        &&& distinct_servers(self.servers())
        &&& forall|n: u64| #[trigger]
            self.outstanding().contains_key(n) ==> self.outstanding()[n].nonce == n
    }

    /// A client with no address, no server and no probe under way.
    pub fn new(local: PeerId, interval: u64, timeout: u64, grace: u64) -> (r: ProbeScheduler)
        ensures
            r.wf(),
            r.spec_local() == local,
            r.spec_interval() == interval,
            r.spec_timeout() == timeout,
            r.spec_grace() == grace,
            r.retired() == Map::<u64, u64>::empty(),
            r.addresses() == Seq::<CandidateAddress>::empty(),
            r.servers() == Seq::<PeerProbeState>::empty(),
            r.outstanding() == Map::<u64, Outstanding>::empty(),
    {
        ProbeScheduler {
            local,
            interval,
            timeout,
            grace,
            book: AddressBook::new(),
            servers: Vec::new(),
            outstanding: HashMap::new(),
            retired: HashMap::new(),
        }
    }

    /// The address book, to read.
    pub fn book(&self) -> (r: &AddressBook)
        ensures
            r@ == self.addresses(),
    {
        &self.book
    }

    /// Adds a candidate address; one that is there already stays as it is.
    pub fn add_candidate(&mut self, addr: Address) -> (added: bool)
        requires
            old(self).wf(),
        ensures
            final(self).wf(),
            old(self).same_settings(final(self)),
            final(self).servers() == old(self).servers(),
            final(self).outstanding() == old(self).outstanding(),
            final(self).retired() == old(self).retired(),
            added == !crate::address_book::knows(old(self).addresses(), addr),
            final(self).addresses() == (if added {
                old(self).addresses().push(crate::address_book::spec_fresh(addr))
            } else {
                old(self).addresses()
            }),
    {
        self.book.add_candidate(addr)
    }

    /// Where `peer` stands among the servers, if it is tracked.
    pub fn find_server(&self, peer: PeerId) -> (r: Option<usize>)
        requires
            self.wf(),
        ensures
            match r {
                Some(i) => tracks(self.servers(), peer) && i == server_position(
                    self.servers(),
                    peer,
                ),
                None => !tracks(self.servers(), peer),
            },
    {
        let mut i: usize = 0;
        while i < self.servers.len()
            invariant
                self.wf(),
                i <= self.servers@.len(),
                forall|j: int| 0 <= j < i ==> (#[trigger] self.servers@[j]).server != peer,
            decreases self.servers@.len() - i,
        {
            if self.servers[i].server == peer {
                return Some(i);
            }
            i += 1;
        }
        None
    }

    /// Starts to track `peer` as a server, never probed so far. A server that
    /// is tracked already stays as it is.
    pub fn add_server(&mut self, peer: PeerId) -> (added: bool)
        requires
            old(self).wf(),
        ensures
            final(self).wf(),
            old(self).same_settings(final(self)),
            final(self).addresses() == old(self).addresses(),
            final(self).outstanding() == old(self).outstanding(),
            final(self).retired() == old(self).retired(),
            added == !tracks(old(self).servers(), peer),
            final(self).servers() == (if added {
                old(self).servers().push(
                    PeerProbeState {
                        server: peer,
                        last_probe: None,
                        interval: old(self).spec_interval(),
                    },
                )
            } else {
                old(self).servers()
            }),
    {
        match self.find_server(peer) {
            Some(_) => false,
            None => {
                self.servers.push(
                    PeerProbeState { server: peer, last_probe: None, interval: self.interval },
                );
                true
            },
        }
    }

    /// Stops tracking `peer`. Probes of it that are under way stay so until
    /// they are answered or time out.
    pub fn remove_server(&mut self, peer: PeerId) -> (removed: bool)
        requires
            old(self).wf(),
        ensures
            final(self).wf(),
            old(self).same_settings(final(self)),
            final(self).addresses() == old(self).addresses(),
            final(self).outstanding() == old(self).outstanding(),
            final(self).retired() == old(self).retired(),
            removed == tracks(old(self).servers(), peer),
            final(self).servers() == (if removed {
                old(self).servers().remove(server_position(old(self).servers(), peer))
            } else {
                old(self).servers()
            }),
    {
        match self.find_server(peer) {
            Some(i) => {
                self.servers.remove(i);
                true
            },
            None => false,
        }
    }

    /// The position of the server to probe next at `now`, if one is due.
    pub fn next_server(&self, now: u64) -> (r: Option<usize>)
        ensures
            match r {
                Some(i) => spec_next_server(self.servers(), now) == Some(i as int),
                None => spec_next_server(self.servers(), now).is_none(),
            },
            r.is_some() ==> is_next_server(self.servers(), r.unwrap() as int, now),
    {
        let mut best: Option<usize> = None;
        let mut i: usize = 0;
        while i < self.servers.len()
            invariant
                i <= self.servers@.len(),
                match best {
                    Some(b) => b < i && is_next_server(self.servers@.take(i as int), b as int, now),
                    None => forall|j: int|
                        0 <= j < i ==> !spec_due(#[trigger] self.servers@[j], now),
                },
            decreases self.servers@.len() - i,
        {
            let c = self.servers[i];
            let ghost prev = self.servers@.take(i as int);
            let ghost next = self.servers@.take(i + 1);
            proof {
                assert(forall|j: int| 0 <= j < i ==> prev[j] == next[j]);
                assert(next[i as int] == c);
            }
            if is_due(c, now) {
                match best {
                    None => {
                        best = Some(i);
                    },
                    Some(b) => {
                        if earlier(c.last_probe, self.servers[b].last_probe) {
                            best = Some(i);
                        }
                    },
                }
            }
            i += 1;
            proof {
                match best {
                    Some(b) => {
                        assert(is_next_server(next, b as int, now));
                    },
                    None => {},
                }
            }
        }
        proof {
            assert(self.servers@.take(i as int) == self.servers@);
            match best {
                Some(b) => {
                    let c = choose|k: int| is_next_server(self.servers@, k, now);
                    lemma_next_server_unique(self.servers@, b as int, c, now);
                },
                None => {
                    assert forall|k: int| !is_next_server(self.servers@, k, now) by {
                        if 0 <= k < self.servers@.len() {
                            assert(!spec_due(self.servers@[k], now));
                        }
                    }
                },
            }
        }
        best
    }

    /// Whether `next` is `self` after a probe under `nonce` was started at
    /// `now`, with `server` and `request` what is to be sent: the server is
    /// the one due that was probed longest ago, the request asks for the
    /// unverified address tested longest ago and for no other, the probe is
    /// filed under its nonce with its deadline, the server's last probe is
    /// `now`, and the addresses are as they were.
    pub open spec fn started(
        &self,
        next: &ProbeScheduler,
        now: u64,
        nonce: u64,
        server: PeerId,
        request: ProbeRequest,
    ) -> bool {
        &&& !self.outstanding().contains_key(nonce)
        &&& spec_next_server(self.servers(), now) matches Some(p)
        &&& spec_next_to_test(self.addresses()) matches Some(addr)
        &&& server == self.servers()[p].server
        &&& request.nonce == nonce
        &&& request.addresses@ == seq![addr]
        &&& request.requester_hint == self.spec_local()
        &&& next.addresses() == self.addresses()
        &&& next.servers() == self.servers().update(
            p,
            PeerProbeState {
                server,
                last_probe: Some(now),
                interval: self.servers()[p].interval,
            },
        )
        &&& next.outstanding() == self.outstanding().insert(
            nonce,
            Outstanding {
                nonce,
                server,
                addr,
                deadline: spec_deadline(now, self.spec_timeout()),
            },
        )
        &&& !spec_held_back(self.retired(), nonce, now)
        &&& next.retired() == self.retired().remove(nonce)
    }

    /// Whether a probe under `nonce` can start at `now`: the nonce is neither
    /// in use nor held back, a server is due and an address is unverified.
    pub open spec fn can_start(&self, now: u64, nonce: u64) -> bool {
        &&& !self.outstanding().contains_key(nonce)
        &&& !spec_held_back(self.retired(), nonce, now)
        &&& spec_next_server(self.servers(), now).is_some()
        &&& spec_next_to_test(self.addresses()).is_some()
    }

    /// Whether `next` holds what `self` holds.
    pub open spec fn unchanged(&self, next: &ProbeScheduler) -> bool {
        &&& next.addresses() == self.addresses()
        &&& next.servers() == self.servers()
        &&& next.outstanding() == self.outstanding()
        &&& next.retired() == self.retired()
    }

    /// Starts a probe under `nonce` at `now` and gives the server to ask and
    /// the request to send it, or `None`, with nothing changed, where no
    /// probe can start.
    pub fn start_probe(&mut self, now: u64, nonce: u64) -> (r: Option<(PeerId, ProbeRequest)>)
        requires
            old(self).wf(),
        ensures
            final(self).wf(),
            old(self).same_settings(final(self)),
            r.is_some() == old(self).can_start(now, nonce),
            match r {
                Some((server, request)) => old(self).started(
                    final(self),
                    now,
                    nonce,
                    server,
                    request,
                ),
                None => old(self).unchanged(final(self)),
            },
    {
        if self.outstanding.contains_key(&nonce) || self.is_held_back(nonce, now) {
            return None;
        }
        let p = match self.next_server(now) {
            Some(p) => p,
            None => {
                return None;
            },
        };
        let addr = match self.book.next_to_test() {
            Some(a) => a,
            None => {
                return None;
            },
        };
        let state = self.servers[p];
        let deadline = if self.timeout <= u64::MAX - now {
            now + self.timeout
        } else {
            u64::MAX
        };
        self.servers.set(
            p,
            PeerProbeState { server: state.server, last_probe: Some(now), interval: state.interval },
        );
        self.retired.remove(&nonce);
        self.outstanding.insert(
            nonce,
            Outstanding { nonce, server: state.server, addr, deadline },
        );
        let mut addresses: Vec<Address> = Vec::new();
        addresses.push(addr);
        proof {
            assert(addresses@ == seq![addr]);
        }
        Some((state.server, ProbeRequest { nonce, addresses, requester_hint: self.local }))
    }

    /// Starts a probe at `now` under a nonce drawn from the operating
    /// system's random source. Gives `None`, with nothing changed, where the
    /// source failed, where it gave a nonce that is in use or held back, or
    /// where no probe can start.
    pub fn start_probe_fresh(&mut self, now: u64) -> (r: Option<(PeerId, ProbeRequest)>)
        requires
            old(self).wf(),
        ensures
            final(self).wf(),
            old(self).same_settings(final(self)),
            match r {
                Some((server, request)) => old(self).started(
                    final(self),
                    now,
                    request.nonce,
                    server,
                    request,
                ),
                None => old(self).unchanged(final(self)),
            },
    {
        match fresh_nonce() {
            Some(nonce) => self.start_probe(now, nonce),
            None => None,
        }
    }

    /// Takes the answer `resp` that came from `from` at `now`. An answer that
    /// matches a probe under way ends that probe, is recorded in the address
    /// book and is reported. Any other answer is ignored: nothing changes and
    /// nothing is reported.
    pub fn on_response(&mut self, from: PeerId, resp: DialBackResponse, now: u64) -> (r: Option<
        ClientEvent,
    >)
        requires
            old(self).wf(),
        ensures
            final(self).wf(),
            old(self).same_settings(final(self)),
            final(self).servers() == old(self).servers(),
            !spec_matches(old(self).outstanding(), from, resp) ==> r.is_none() && old(
                self,
            ).unchanged(final(self)),
            spec_matches(old(self).outstanding(), from, resp) ==> {
                let addr = old(self).outstanding()[resp.nonce].addr;
                &&& final(self).outstanding() == old(self).outstanding().remove(resp.nonce)
                &&& final(self).retired() == old(self).retired()
                &&& final(self).addresses() == spec_mark(
                    old(self).addresses(),
                    addr,
                    resp.outcome,
                    now,
                )
                &&& r == Some(
                    ClientEvent::Probed {
                        server: from,
                        tested_addr: addr,
                        bytes_sent: resp.bytes_sent,
                        outcome: resp.outcome,
                        newly_confirmed: spec_newly_confirmed(
                            old(self).addresses(),
                            addr,
                            resp.outcome,
                        ),
                    },
                )
            },
    {
        let rec = match self.outstanding.get(&resp.nonce) {
            Some(rec) => *rec,
            None => {
                return None;
            },
        };
        if rec.server != from {
            return None;
        }
        let refused = match resp.outcome {
            ProbeOutcome::Refused(_) => true,
            _ => false,
        };
        if !refused && resp.tested_addr != rec.addr {
            return None;
        }
        self.outstanding.remove(&resp.nonce);
        let newly_confirmed = self.book.mark_result(rec.addr, resp.outcome, now);
        Some(
            ClientEvent::Probed {
                server: from,
                tested_addr: rec.addr,
                bytes_sent: resp.bytes_sent,
                outcome: resp.outcome,
                newly_confirmed,
            },
        )
    }

    /// Takes the news, at `now`, that the timer of the probe under `nonce`
    /// ran out. A probe under way whose deadline has come is given up and
    /// reported as timed out, and its nonce is held back for the grace time
    /// from `now`; else nothing changes. The address book stays as it was
    /// either way.
    pub fn on_timeout(&mut self, nonce: u64, now: u64) -> (r: Option<ClientEvent>)
        requires
            old(self).wf(),
        ensures
            final(self).wf(),
            old(self).same_settings(final(self)),
            final(self).servers() == old(self).servers(),
            final(self).addresses() == old(self).addresses(),
            r == (if old(self).outstanding().contains_key(nonce) && old(
                self,
            ).outstanding()[nonce].deadline <= now {
                Some(
                    ClientEvent::TimedOut {
                        server: old(self).outstanding()[nonce].server,
                        tested_addr: old(self).outstanding()[nonce].addr,
                    },
                )
            } else {
                None
            }),
            final(self).outstanding() == (if r.is_some() {
                old(self).outstanding().remove(nonce)
            } else {
                old(self).outstanding()
            }),
            final(self).retired() == (if r.is_some() {
                old(self).retired().insert(nonce, spec_deadline(now, old(self).spec_grace()))
            } else {
                old(self).retired()
            }),
    {
        let rec = match self.outstanding.get(&nonce) {
            Some(rec) => *rec,
            None => {
                return None;
            },
        };
        if rec.deadline > now {
            return None;
        }
        self.outstanding.remove(&nonce);
        let free_from = if self.grace <= u64::MAX - now {
            now + self.grace
        } else {
            u64::MAX
        };
        self.retired.insert(nonce, free_from);
        Some(ClientEvent::TimedOut { server: rec.server, tested_addr: rec.addr })
    }

    /// Gives up the probe under `nonce` without a report, as when the
    /// connection to its server is gone. The address book stays as it was.
    pub fn abandon(&mut self, nonce: u64) -> (r: bool)
        requires
            old(self).wf(),
        ensures
            final(self).wf(),
            old(self).same_settings(final(self)),
            final(self).servers() == old(self).servers(),
            final(self).addresses() == old(self).addresses(),
            final(self).outstanding() == old(self).outstanding().remove(nonce),
            final(self).retired() == old(self).retired(),
            r == old(self).outstanding().contains_key(nonce),
    {
        self.outstanding.remove(&nonce).is_some()
    }

    /// Whether `nonce` is held back at `now`.
    pub fn is_held_back(&self, nonce: u64, now: u64) -> (r: bool)
        ensures
            r == spec_held_back(self.retired(), nonce, now),
    {
        match self.retired.get(&nonce) {
            Some(free_from) => now < *free_from,
            None => false,
        }
    }

    /// Forgets that the probe under `nonce` timed out, once its grace time
    /// has passed at `now`; says whether there was something to forget.
    /// Nothing else changes.
    pub fn release(&mut self, nonce: u64, now: u64) -> (r: bool)
        requires
            old(self).wf(),
        ensures
            final(self).wf(),
            old(self).same_settings(final(self)),
            final(self).servers() == old(self).servers(),
            final(self).addresses() == old(self).addresses(),
            final(self).outstanding() == old(self).outstanding(),
            r == (old(self).retired().contains_key(nonce) && old(self).retired()[nonce] <= now),
            final(self).retired() == (if r {
                old(self).retired().remove(nonce)
            } else {
                old(self).retired()
            }),
    {
        if self.retired.contains_key(&nonce) && !self.is_held_back(nonce, now) {
            self.retired.remove(&nonce);
            true
        } else {
            false
        }
    }

    /// Whether a probe under `nonce` is under way, that is in state `Sent`.
    pub fn is_outstanding(&self, nonce: u64) -> (r: bool)
        ensures
            r == self.outstanding().contains_key(nonce),
    {
        self.outstanding.contains_key(&nonce)
    }
}

/// Whether the server may be probed at `now`.
pub fn is_due(p: PeerProbeState, now: u64) -> (r: bool)
    ensures
        r == spec_due(p, now),
{
    match p.last_probe {
        None => true,
        Some(t) => now >= t && now - t >= p.interval,
    }
}

} // verus!
