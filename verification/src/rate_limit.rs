//! A per-requester request quota over a sliding span of time.
//!
//! The limiter keeps, for each requester, the times of its last admitted
//! requests, at most as many as the quota. A request is admitted where fewer
//! than the quota were admitted before it, or where the one admitted a full
//! quota ago lies at least a span back. So no span of time ever holds more
//! admitted requests of one requester than the quota.
//!
//! Time is counted so that it never runs backwards: a clock reading earlier
//! than the requester's last admitted request counts as the time of that
//! request.

use std::collections::HashMap;
use vstd::prelude::*;

verus! {

broadcast use vstd::std_specs::hash::group_hash_axioms;

/// Whether the times in `s` never decrease.
pub open spec fn sorted(s: Seq<u64>) -> bool {
    forall|i: int, j: int| 0 <= i <= j < s.len() ==> s[i] <= s[j]
}

/// Whether `log` can be a requester's log under `quota`: at most `quota`
/// times, never decreasing.
pub open spec fn log_wf(log: Seq<u64>, quota: u32) -> bool {
    log.len() <= quota && sorted(log)
}

/// Whether every log in `m` can be a requester's log under `quota`.
pub open spec fn logs_wf(m: Map<u64, Seq<u64>>, quota: u32) -> bool {
    forall|p: u64| #[trigger] m.contains_key(p) ==> log_wf(m[p], quota)
}

/// The log of `peer` in `m`: empty where it has none.
pub open spec fn spec_log(m: Map<u64, Seq<u64>>, peer: u64) -> Seq<u64> {
    if m.contains_key(peer) {
        m[peer]
    } else {
        Seq::empty()
    }
}

/// The time at which a request that arrives at clock reading `now` is
/// counted: `now`, or the time of the last admitted request where the clock
/// reads earlier than that.
pub open spec fn spec_effective(log: Seq<u64>, now: u64) -> u64 {
    if log.len() > 0 && log.last() > now {
        log.last()
    } else {
        now
    }
}

/// Whether a request at `now` is admitted, given the requester's `log`: fewer
/// than `quota` requests were admitted so far, or the one admitted `quota`
/// requests ago lies at least `span` back.
pub open spec fn log_admits(log: Seq<u64>, quota: u32, span: u64, now: u64) -> bool {
    quota > 0 && (log.len() < quota || spec_effective(log, now) - log[log.len() - quota] >= span)
}

/// The log after a request at `now` was admitted: the time of the request
/// behind the last `quota - 1` times of `log`.
pub open spec fn log_step(log: Seq<u64>, quota: u32, now: u64) -> Seq<u64> {
    let kept = if log.len() < quota {
        log
    } else {
        log.subrange(log.len() - quota + 1, log.len() as int)
    };
    kept.push(spec_effective(log, now))
}

/// Whether a request of `peer` at `now` is admitted, given the logs `m`.
pub open spec fn spec_admits(
    m: Map<u64, Seq<u64>>,
    quota: u32,
    span: u64,
    peer: u64,
    now: u64,
) -> bool {
    log_admits(spec_log(m, peer), quota, span, now)
}

/// Whether `peer` has used up its quota in the span that ends at `now`.
pub open spec fn spec_exhausted(
    m: Map<u64, Seq<u64>>,
    quota: u32,
    span: u64,
    peer: u64,
    now: u64,
) -> bool {
    let log = spec_log(m, peer);
    log.len() >= quota && spec_effective(log, now) - log[log.len() - quota] < span
}

/// The logs after a request of `peer` at `now`. A request that is refused
/// changes nothing.
pub open spec fn spec_after(
    m: Map<u64, Seq<u64>>,
    quota: u32,
    span: u64,
    peer: u64,
    now: u64,
) -> Map<u64, Seq<u64>> {
    if spec_admits(m, quota, span, peer, now) {
        m.insert(peer, log_step(spec_log(m, peer), quota, now))
    } else {
        m
    }
}

/// A requester's log after it made requests at the clock readings `times`,
/// in that order, starting from `log`.
pub open spec fn log_after(log: Seq<u64>, quota: u32, span: u64, times: Seq<u64>) -> Seq<u64>
    decreases times.len(),
{
    if times.len() == 0 {
        log
    } else {
        let l = log_after(log, quota, span, times.drop_last());
        if log_admits(l, quota, span, times.last()) {
            log_step(l, quota, times.last())
        } else {
            l
        }
    }
}

/// The times of all requests of a requester that were ever admitted, in
/// order: those of `log`, then those admitted of the requests made at the
/// clock readings `times`.
pub open spec fn admitted_history(
    log: Seq<u64>,
    quota: u32,
    span: u64,
    times: Seq<u64>,
) -> Seq<u64>
    decreases times.len(),
{
    if times.len() == 0 {
        log
    } else {
        let h = admitted_history(log, quota, span, times.drop_last());
        let l = log_after(log, quota, span, times.drop_last());
        if log_admits(l, quota, span, times.last()) {
            h.push(spec_effective(l, times.last()))
        } else {
            h
        }
    }
}

/// Whether every stretch of admitted requests in `h` that lies within less
/// than `span` holds at most `quota` of them.
pub open spec fn within_quota(h: Seq<u64>, quota: u32, span: u64) -> bool {
    forall|i: int, j: int|
        0 <= i <= j < h.len() && h[j] - h[i] < span ==> j - i < quota
}

/// Whether `l` is the end of `h`: all of it, or its last `quota` times.
pub open spec fn is_tail(l: Seq<u64>, h: Seq<u64>, quota: u32) -> bool {
    &&& l.len() <= h.len()
    &&& l.len() == h.len() || l.len() == quota
    &&& forall|k: int| 0 <= k < l.len() ==> l[k] == h[h.len() - l.len() + k]
}

/// Counts requests per requester and refuses those over the quota.
pub struct RateLimiter {
    quota: u32,
    span: u64,
    peers: HashMap<u64, Vec<u64>>,
}

impl RateLimiter {
    /// The times of the last admitted requests, by requester.
    pub closed spec fn view(&self) -> Map<u64, Seq<u64>> {
        Map::new(|p: u64| self.peers@.contains_key(p), |p: u64| self.peers@[p]@)
    }

    /// How many requests one requester may make per span.
    pub closed spec fn spec_quota(&self) -> u32 {
        self.quota
    }

    /// The length of the span.
    pub closed spec fn spec_span(&self) -> u64 {
        self.span
    }

    /// Every log holds at most the quota of times, never decreasing.
    pub open spec fn wf(&self) -> bool {
        logs_wf(self@, self.spec_quota())
    }

    /// A limiter with no log that admits `quota` requests of one requester
    /// per `span`.
    pub fn new(quota: u32, span: u64) -> (r: RateLimiter)
        ensures
            r.wf(),
            r@ == Map::<u64, Seq<u64>>::empty(),
            r.spec_quota() == quota,
            r.spec_span() == span,
    {
        let r = RateLimiter { quota, span, peers: HashMap::new() };
        proof {
            assert(r@ =~= Map::<u64, Seq<u64>>::empty());
        }
        r
    }

    /// How many requests one requester may make per span.
    pub fn quota(&self) -> (r: u32)
        ensures
            r == self.spec_quota(),
    {
        self.quota
    }

    /// The length of the span.
    pub fn span(&self) -> (r: u64)
        ensures
            r == self.spec_span(),
    {
        self.span
    }

    /// The times of the last admitted requests of `peer`.
    pub fn log_of(&self, peer: u64) -> (r: Vec<u64>)
        ensures
            r@ == spec_log(self@, peer),
    {
        let mut out: Vec<u64> = Vec::new();
        match self.peers.get(&peer) {
            Some(log) => {
                let mut i: usize = 0;
                while i < log.len()
                    invariant
                        i <= log@.len(),
                        out@ == log@.take(i as int),
                    decreases log@.len() - i,
                {
                    out.push(log[i]);
                    proof {
                        assert(out@ =~= log@.take(i + 1));
                    }
                    i += 1;
                }
                proof {
                    assert(log@.take(i as int) =~= log@);
                }
            },
            None => {},
        }
        out
    }

    /// Drops the log of `peer`, as when the peer is gone; says whether it
    /// had one.
    pub fn forget(&mut self, peer: u64) -> (had: bool)
        requires
            old(self).wf(),
        ensures
            final(self).wf(),
            final(self).spec_quota() == old(self).spec_quota(),
            final(self).spec_span() == old(self).spec_span(),
            final(self)@ == old(self)@.remove(peer),
            had == old(self)@.contains_key(peer),
    {
        let had = self.peers.remove(&peer).is_some();
        proof {
            assert(self@ =~= old(self)@.remove(peer));
        }
        had
    }

    /// Counts a request of `peer` at `now` and says whether it is admitted.
    pub fn allow(&mut self, peer: u64, now: u64) -> (ok: bool)
        requires
            old(self).wf(),
        ensures
            final(self).wf(),
            final(self).spec_quota() == old(self).spec_quota(),
            final(self).spec_span() == old(self).spec_span(),
            ok == spec_admits(old(self)@, old(self).spec_quota(), old(self).spec_span(), peer, now),
            final(self)@ == spec_after(
                old(self)@,
                old(self).spec_quota(),
                old(self).spec_span(),
                peer,
                now,
            ),
    {
        if self.quota == 0 {
            return false;
        }
        let ghost before = spec_log(self@, peer);
        let mut log = match self.peers.remove(&peer) {
            Some(log) => log,
            None => Vec::new(),
        };
        proof {
            assert(log@ == before);
            assert(old(self)@.contains_key(peer) ==> log_wf(before, self.quota));
        }
        let n = log.len();
        let eff = if n > 0 && log[n - 1] > now {
            log[n - 1]
        } else {
            now
        };
        let full = n >= self.quota as usize;
        if full && eff - log[n - self.quota as usize] < self.span {
            self.peers.insert(peer, log);
            proof {
                assert(self@ =~= old(self)@);
            }
            return false;
        }
        if full {
            log.remove(0);
            proof {
                assert(log@ =~= before.subrange(before.len() - self.quota + 1, before.len() as int));
            }
        }
        log.push(eff);
        proof {
            lemma_step_keeps_wf(before, self.quota, now);
            assert(log@ == log_step(before, self.quota, now));
        }
        self.peers.insert(peer, log);
        proof {
            assert(self@ =~= spec_after(old(self)@, self.quota, self.span, peer, now));
        }
        true
    }
}

/// The log after an admitted request is again a log under the quota.
pub proof fn lemma_step_keeps_wf(log: Seq<u64>, quota: u32, now: u64)
    requires
        log_wf(log, quota),
        quota > 0,
    ensures
        log_wf(log_step(log, quota, now), quota),
{
    let next = log_step(log, quota, now);
    let e = spec_effective(log, now);
    let d = next.len() - 1;
    assert forall|i: int, j: int| 0 <= i <= j < next.len() implies next[i] <= next[j] by {
        if j < d {
            if log.len() < quota {
                assert(next[i] == log[i] && next[j] == log[j]);
            } else {
                assert(next[i] == log[i + 1] && next[j] == log[j + 1]);
            }
        } else if i < d {
            if log.len() < quota {
                assert(next[i] == log[i]);
            } else {
                assert(next[i] == log[i + 1]);
            }
            assert(next[i] <= log.last());
        }
    }
}

/// A request is refused exactly where the quota is zero or used up, and a
/// refused request changes nothing.
pub proof fn lemma_refused_iff_exhausted(
    m: Map<u64, Seq<u64>>,
    quota: u32,
    span: u64,
    peer: u64,
    now: u64,
)
    ensures
        !spec_admits(m, quota, span, peer, now) <==> quota == 0 || spec_exhausted(
            m,
            quota,
            span,
            peer,
            now,
        ),
        !spec_admits(m, quota, span, peer, now) ==> spec_after(m, quota, span, peer, now) == m,
{
}

/// A request of one requester leaves every other requester's log as it was:
/// no requester can use up another's quota.
pub proof fn lemma_requesters_independent(
    m: Map<u64, Seq<u64>>,
    quota: u32,
    span: u64,
    peer: u64,
    now: u64,
    other: u64,
)
    requires
        other != peer,
    ensures
        spec_log(spec_after(m, quota, span, peer, now), other) == spec_log(m, other),
        spec_after(m, quota, span, peer, now).contains_key(other) == m.contains_key(other),
{
}

/// The log of the requester after one request is what `log_after` says of
/// that one request: the laws on runs of requests speak of what the limiter
/// does.
pub proof fn lemma_one_request(m: Map<u64, Seq<u64>>, quota: u32, span: u64, peer: u64, now: u64)
    ensures
        spec_log(spec_after(m, quota, span, peer, now), peer) == log_after(
            spec_log(m, peer),
            quota,
            span,
            seq![now],
        ),
{
    let times = seq![now];
    assert(times.drop_last() =~= Seq::<u64>::empty());
    assert(times.last() == now);
    assert(log_after(spec_log(m, peer), quota, span, times.drop_last()) == spec_log(m, peer));
}

/// From every log under the quota and for every run of requests, whatever
/// the clock reads: the admitted times never decrease, the log is the end of
/// them, and every stretch of admitted requests that lies within less than
/// `span` holds at most `quota` of them. So no span of time holds more
/// admitted requests of one requester than the quota.
pub proof fn lemma_quota_in_every_span(log: Seq<u64>, quota: u32, span: u64, times: Seq<u64>)
    requires
        log_wf(log, quota),
    ensures
        log_wf(log_after(log, quota, span, times), quota),
        sorted(admitted_history(log, quota, span, times)),
        is_tail(
            log_after(log, quota, span, times),
            admitted_history(log, quota, span, times),
            quota,
        ),
        within_quota(admitted_history(log, quota, span, times), quota, span),
    decreases times.len(),
{
    if times.len() > 0 {
        let before = times.drop_last();
        let now = times.last();
        lemma_quota_in_every_span(log, quota, span, before);
        let l = log_after(log, quota, span, before);
        let h = admitted_history(log, quota, span, before);
        if log_admits(l, quota, span, now) {
            let e = spec_effective(l, now);
            let l2 = log_step(l, quota, now);
            let h2 = h.push(e);
            let n = h.len() as int;
            lemma_step_keeps_wf(l, quota, now);
            if l.len() > 0 {
                assert(l[l.len() - 1] == h[n - 1]);
            }
            assert forall|i: int, j: int| 0 <= i <= j < h2.len() implies h2[i] <= h2[j] by {
                if j < n {
                    assert(h2[i] == h[i] && h2[j] == h[j]);
                } else if i < n {
                    assert(h2[i] == h[i]);
                    assert(h[i] <= h[n - 1]);
                }
            }
            assert forall|k: int| 0 <= k < l2.len() implies l2[k] == h2[h2.len() - l2.len() + k] by {
                if k < l2.len() - 1 {
                    if l.len() < quota {
                        assert(l2[k] == l[k]);
                    } else {
                        assert(l2[k] == l[k + 1]);
                    }
                }
            }
            assert forall|i: int, j: int|
                0 <= i <= j < h2.len() && h2[j] - h2[i] < span implies j - i < quota by {
                if j < n {
                    assert(h2[i] == h[i] && h2[j] == h[j]);
                } else if j - i >= quota {
                    assert(l.len() == quota);
                    assert(l[0] == h[n - quota]);
                    assert(h2[i] == h[i]);
                    assert(h[i] <= h[n - quota]);
                    assert(e - l[0] >= span);
                }
            }
        }
    }
}

/// Whether the admitted times in `h` behind the first `start` lie between
/// `a` and `b`, or, where the clock read earlier than `last`, at `last` at
/// most.
pub open spec fn admitted_between(h: Seq<u64>, start: int, a: u64, b: u64, last: Option<u64>) -> bool {
    forall|k: int|
        start <= k < h.len() ==> a <= #[trigger] h[k] && (h[k] <= b || (last.is_some() && h[k]
            <= last.unwrap()))
}

/// The history of admitted requests starts with the log, and what is admitted
/// of requests made between `a` and `b` is counted between `a` and `b`, or at
/// the time of the log's last request where the clock read earlier.
pub proof fn lemma_history_bounds(
    log: Seq<u64>,
    quota: u32,
    span: u64,
    times: Seq<u64>,
    a: u64,
    b: u64,
)
    requires
        log_wf(log, quota),
        forall|i: int| 0 <= i < times.len() ==> a <= #[trigger] times[i] <= b,
    ensures
        admitted_history(log, quota, span, times).len() >= log.len(),
        forall|k: int|
            0 <= k < log.len() ==> admitted_history(log, quota, span, times)[k] == log[k],
        admitted_between(
            admitted_history(log, quota, span, times),
            log.len() as int,
            a,
            b,
            if log.len() > 0 {
                Some(log.last())
            } else {
                None
            },
        ),
    decreases times.len(),
{
    if times.len() > 0 {
        let before = times.drop_last();
        let now = times.last();
        assert(forall|i: int| 0 <= i < before.len() ==> before[i] == times[i]);
        lemma_history_bounds(log, quota, span, before, a, b);
        lemma_quota_in_every_span(log, quota, span, before);
        let l = log_after(log, quota, span, before);
        let h = admitted_history(log, quota, span, before);
        let last = if log.len() > 0 {
            Some(log.last())
        } else {
            None
        };
        if log_admits(l, quota, span, now) {
            let e = spec_effective(l, now);
            let h2 = h.push(e);
            let n = h.len() as int;
            assert(a <= now <= b);
            if l.len() > 0 && l.last() > now {
                assert(l[l.len() - 1] == h[n - 1]);
                if n - 1 < log.len() {
                    assert(h[n - 1] == log[n - 1]);
                    assert(log[n - 1] <= log[log.len() - 1]);
                }
            }
            assert forall|k: int| log.len() <= k < h2.len() implies a <= #[trigger] h2[k] && (h2[k]
                <= b || (last.is_some() && h2[k] <= last.unwrap())) by {
                if k < n {
                    assert(h2[k] == h[k]);
                }
            }
            assert forall|k: int| 0 <= k < log.len() implies h2[k] == log[k] by {
                assert(h2[k] == h[k]);
            }
        }
    }
}

/// From every log under the quota: of the requests that a requester makes at
/// clock readings between `a` and `b`, less than `span` apart, at most
/// `quota` are admitted, whatever was admitted before.
pub proof fn lemma_burst_within_quota(
    log: Seq<u64>,
    quota: u32,
    span: u64,
    times: Seq<u64>,
    a: u64,
    b: u64,
)
    requires
        log_wf(log, quota),
        forall|i: int| 0 <= i < times.len() ==> a <= #[trigger] times[i] <= b,
        b - a < span,
    ensures
        admitted_history(log, quota, span, times).len() - log.len() <= quota,
{
    lemma_history_bounds(log, quota, span, times, a, b);
    lemma_quota_in_every_span(log, quota, span, times);
    let h = admitted_history(log, quota, span, times);
    if h.len() - log.len() > quota {
        let i = log.len() as int;
        let j = h.len() - 1;
        assert(a <= h[i] && a <= h[j]);
        if h[j] > b {
            assert(log.len() > 0);
            assert(h[i - 1] == log[i - 1]);
            assert(h[i - 1] <= h[i]);
            assert(h[i] <= h[j]);
        }
        assert(h[j] - h[i] < span);
        assert(j - i < quota);
    }
}

} // verus!
