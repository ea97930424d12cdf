//! The node's candidate addresses and what probes have shown of them.

use crate::wire::{Address, ProbeOutcome, RefusalReason};
use vstd::prelude::*;

verus! {

/// What is known of a candidate address.
#[derive(Clone, Copy, Debug, PartialEq, Eq, Structural)]
pub enum Status {
    Unverified,
    Confirmed,
    Refused,
}

/// One candidate address with its status, the time of its last test (`None`
/// while it was never tested) and how many servers in a row called it
/// invalid.
#[derive(Clone, Copy, Debug, PartialEq, Eq, Structural)]
pub struct CandidateAddress {
    pub addr: Address,
    pub status: Status,
    pub last_tested: Option<u64>,
    pub invalid_refusals: u8,
}

/// After this many refusals as invalid in a row, with no success between, an
/// unverified address is marked `Refused` and no longer probed.
pub const INVALID_REFUSAL_LIMIT: u8 = 3;

/// Whether `s` holds an entry for `addr`.
pub open spec fn knows(s: Seq<CandidateAddress>, addr: Address) -> bool {
    exists|i: int| 0 <= i < s.len() && (#[trigger] s[i]).addr == addr
}

/// The position of the entry for `addr` in `s`, where there is one.
pub open spec fn position_of(s: Seq<CandidateAddress>, addr: Address) -> int {
    choose|i: int| 0 <= i < s.len() && (#[trigger] s[i]).addr == addr
}

/// No address has two entries.
pub open spec fn distinct(s: Seq<CandidateAddress>) -> bool {
    forall|i: int, j: int|
        0 <= i < s.len() && 0 <= j < s.len() && i != j ==> (#[trigger] s[i]).addr != (
        #[trigger] s[j]).addr
}

/// The status of `addr` in `s`, where it has an entry.
pub open spec fn spec_status(s: Seq<CandidateAddress>, addr: Address) -> Option<Status> {
    if knows(s, addr) {
        Some(s[position_of(s, addr)].status)
    } else {
        None
    }
}

/// The entry of an address that was just added.
pub open spec fn spec_fresh(addr: Address) -> CandidateAddress {
    CandidateAddress { addr, status: Status::Unverified, last_tested: None, invalid_refusals: 0 }
}

/// The entry `c` after a probe of its address at `now` ended with `outcome`.
/// A success confirms. A failed dial changes no status. Being refused as
/// rate-limited is no test at all. Being refused as invalid counts against
/// an unverified address, which is marked `Refused` at the limit.
pub open spec fn spec_marked(c: CandidateAddress, outcome: ProbeOutcome, now: u64) -> CandidateAddress {
    match outcome {
        ProbeOutcome::Success => CandidateAddress {
            addr: c.addr,
            status: Status::Confirmed,
            last_tested: Some(now),
            invalid_refusals: 0,
        },
        ProbeOutcome::DialFailed(_) => CandidateAddress {
            addr: c.addr,
            status: c.status,
            last_tested: Some(now),
            invalid_refusals: c.invalid_refusals,
        },
        ProbeOutcome::Refused(RefusalReason::RateLimited) => c,
        ProbeOutcome::Refused(RefusalReason::InvalidAddress) => if c.status != Status::Unverified {
            CandidateAddress {
                addr: c.addr,
                status: c.status,
                last_tested: Some(now),
                invalid_refusals: c.invalid_refusals,
            }
        } else if c.invalid_refusals >= INVALID_REFUSAL_LIMIT - 1 {
            CandidateAddress {
                addr: c.addr,
                status: Status::Refused,
                last_tested: Some(now),
                invalid_refusals: INVALID_REFUSAL_LIMIT,
            }
        } else {
            CandidateAddress {
                addr: c.addr,
                status: Status::Unverified,
                last_tested: Some(now),
                invalid_refusals: (c.invalid_refusals + 1) as u8,
            }
        },
    }
}

/// The entries after the result of a probe of `addr` is recorded: the entry
/// of `addr` is marked, and an address without an entry changes nothing.
pub open spec fn spec_mark(
    s: Seq<CandidateAddress>,
    addr: Address,
    outcome: ProbeOutcome,
    now: u64,
) -> Seq<CandidateAddress> {
    if knows(s, addr) {
        s.update(position_of(s, addr), spec_marked(s[position_of(s, addr)], outcome, now))
    } else {
        s
    }
}

/// Whether recording `outcome` for `addr` confirms an address that was not
/// confirmed before.
pub open spec fn spec_newly_confirmed(
    s: Seq<CandidateAddress>,
    addr: Address,
    outcome: ProbeOutcome,
) -> bool {
    knows(s, addr) && s[position_of(s, addr)].status != Status::Confirmed && outcome
        == ProbeOutcome::Success
}

/// The confirmed addresses of `s`, in the order of their entries.
pub open spec fn spec_confirmed(s: Seq<CandidateAddress>) -> Seq<Address>
    decreases s.len(),
{
    if s.len() == 0 {
        Seq::empty()
    } else if s.last().status == Status::Confirmed {
        spec_confirmed(s.drop_last()).push(s.last().addr)
    } else {
        spec_confirmed(s.drop_last())
    }
}

/// Whether something last done at `x` was done before something last done at
/// `y`, where never (`None`) comes before any time.
pub open spec fn tested_before(x: Option<u64>, y: Option<u64>) -> bool {
    match (x, y) {
        (None, Some(_)) => true,
        (Some(a), Some(b)) => a < b,
        _ => false,
    }
}

/// Whether position `i` holds the address to probe next: the unverified one
/// that was tested longest ago, and of several such the first.
pub open spec fn is_next_to_test(s: Seq<CandidateAddress>, i: int) -> bool {
    &&& 0 <= i < s.len()
    &&& s[i].status == Status::Unverified
    &&& forall|j: int|
        0 <= j < s.len() && (#[trigger] s[j]).status == Status::Unverified ==> !tested_before(
            s[j].last_tested,
            s[i].last_tested,
        )
    &&& forall|j: int|
        0 <= j < i && (#[trigger] s[j]).status == Status::Unverified ==> tested_before(
            s[i].last_tested,
            s[j].last_tested,
        )
}

/// The address to probe next, where one is unverified.
pub open spec fn spec_next_to_test(s: Seq<CandidateAddress>) -> Option<Address> {
    if exists|i: int| is_next_to_test(s, i) {
        Some(s[choose|i: int| is_next_to_test(s, i)].addr)
    } else {
        None
    }
}

/// At most one position holds the address to probe next.
pub proof fn lemma_next_to_test_unique(s: Seq<CandidateAddress>, i: int, j: int)
    requires
        is_next_to_test(s, i),
        is_next_to_test(s, j),
    ensures
        i == j,
{
    if i < j {
        assert(tested_before(s[j].last_tested, s[i].last_tested));
    } else if j < i {
        assert(tested_before(s[i].last_tested, s[j].last_tested));
    }
}

/// In a sequence without duplicates, an entry's address is found at the
/// entry's own position.
pub proof fn lemma_position(s: Seq<CandidateAddress>, i: int)
    requires
        distinct(s),
        0 <= i < s.len(),
    ensures
        knows(s, s[i].addr),
        position_of(s, s[i].addr) == i,
{
}

/// The candidate addresses of the local node, each once, in the order in
/// which they were added.
pub struct AddressBook {
    entries: Vec<CandidateAddress>,
}

impl AddressBook {
    /// The entries, in the order in which they were added.
    pub closed spec fn view(&self) -> Seq<CandidateAddress> {
        self.entries@
    }

    /// No address has two entries.
    pub open spec fn wf(&self) -> bool {
        distinct(self@)
    }

    /// A book without addresses.
    pub fn new() -> (r: AddressBook)
        ensures
            r.wf(),
            r@ == Seq::<CandidateAddress>::empty(),
    {
        AddressBook { entries: Vec::new() }
    }

    /// Whether no address has two entries. Every book that this module hands
    /// out passes; the test is for callers that cannot rely on proof.
    pub fn is_wf(&self) -> (r: bool)
        ensures
            r == self.wf(),
    {
        let n = self.entries.len();
        let mut i: usize = 0;
        while i < n
            invariant
                n == self.entries@.len(),
                i <= n,
                forall|a: int, b: int|
                    0 <= b < a < i ==> (#[trigger] self.entries@[a]).addr != (
                    #[trigger] self.entries@[b]).addr,
            decreases n - i,
        {
            let mut j: usize = 0;
            while j < i
                invariant
                    n == self.entries@.len(),
                    i < n,
                    j <= i,
                    forall|b: int|
                        0 <= b < j ==> self.entries@[i as int].addr != (
                        #[trigger] self.entries@[b]).addr,
                decreases i - j,
            {
                if self.entries[j].addr == self.entries[i].addr {
                    return false;
                }
                j += 1;
            }
            i += 1;
        }
        proof {
            assert forall|a: int, b: int| 0 <= a < n && 0 <= b < n && a != b implies (
            #[trigger] self.entries@[a]).addr != (#[trigger] self.entries@[b]).addr by {
                if a < b {
                    assert(self.entries@[b].addr != self.entries@[a].addr);
                }
            }
        }
        true
    }

    /// How many addresses the book holds.
    pub fn len(&self) -> (r: usize)
        ensures
            r == self@.len(),
    {
        self.entries.len()
    }

    /// Where the entry of `addr` stands, if it has one.
    pub fn position(&self, addr: Address) -> (r: Option<usize>)
        requires
            self.wf(),
        ensures
            match r {
                Some(i) => knows(self@, addr) && i == position_of(self@, addr),
                None => !knows(self@, addr),
            },
    {
        let mut i: usize = 0;
        while i < self.entries.len()
            invariant
                self.wf(),
                i <= self.entries@.len(),
                forall|j: int| 0 <= j < i ==> (#[trigger] self.entries@[j]).addr != addr,
            decreases self.entries@.len() - i,
        {
            if self.entries[i].addr == addr {
                proof {
                    lemma_position(self@, i as int);
                }
                return Some(i);
            }
            i += 1;
        }
        None
    }

    /// The entry of `addr`, if it has one.
    pub fn get(&self, addr: Address) -> (r: Option<CandidateAddress>)
        requires
            self.wf(),
        ensures
            r == (if knows(self@, addr) {
                Some(self@[position_of(self@, addr)])
            } else {
                None
            }),
    {
        match self.position(addr) {
            Some(i) => Some(self.entries[i]),
            None => None,
        }
    }

    /// The status of `addr`, if it has an entry.
    pub fn status(&self, addr: Address) -> (r: Option<Status>)
        requires
            self.wf(),
        ensures
            r == spec_status(self@, addr),
    {
        match self.position(addr) {
            Some(i) => Some(self.entries[i].status),
            None => None,
        }
    }

    /// Adds `addr` as unverified and never tested. An address that the book
    /// holds already stays as it is; the result says whether it was added.
    pub fn add_candidate(&mut self, addr: Address) -> (added: bool)
        requires
            old(self).wf(),
        ensures
            final(self).wf(),
            added == !knows(old(self)@, addr),
            final(self)@ == (if knows(old(self)@, addr) {
                old(self)@
            } else {
                old(self)@.push(spec_fresh(addr))
            }),
    {
        match self.position(addr) {
            Some(_) => false,
            None => {
                self.entries.push(
                    CandidateAddress {
                        addr,
                        status: Status::Unverified,
                        last_tested: None,
                        invalid_refusals: 0,
                    },
                );
                true
            },
        }
    }

    /// Records that a probe of `addr` at `now` ended with `outcome`. The
    /// result says whether this confirmed an address not confirmed before.
    pub fn mark_result(&mut self, addr: Address, outcome: ProbeOutcome, now: u64) -> (newly_confirmed:
        bool)
        requires
            old(self).wf(),
        ensures
            final(self).wf(),
            final(self)@ == spec_mark(old(self)@, addr, outcome, now),
            newly_confirmed == spec_newly_confirmed(old(self)@, addr, outcome),
    {
        match self.position(addr) {
            None => false,
            Some(i) => {
                let c = self.entries[i];
                let marked = mark_entry(c, outcome, now);
                self.entries.set(i, marked);
                c.status != Status::Confirmed && outcome == ProbeOutcome::Success
            },
        }
    }

    /// The confirmed addresses, as a snapshot, in the order of their entries.
    pub fn confirmed_addresses(&self) -> (r: Vec<Address>)
        ensures
            r@ == spec_confirmed(self@),
    {
        let mut out: Vec<Address> = Vec::new();
        let mut i: usize = 0;
        while i < self.entries.len()
            invariant
                i <= self.entries@.len(),
                out@ == spec_confirmed(self.entries@.take(i as int)),
            decreases self.entries@.len() - i,
        {
            proof {
                assert(self.entries@.take(i + 1).drop_last() == self.entries@.take(i as int));
            }
            if self.entries[i].status == Status::Confirmed {
                out.push(self.entries[i].addr);
            }
            i += 1;
        }
        proof {
            assert(self.entries@.take(i as int) == self.entries@);
        }
        out
    }

    /// The address to probe next: the unverified one that was tested longest
    /// ago, never tested first, and of several such the one added first.
    /// `None` where no address is unverified.
    pub fn next_to_test(&self) -> (r: Option<Address>)
        requires
            self.wf(),
        ensures
            r == spec_next_to_test(self@),
            match r {
                Some(a) => knows(self@, a) && is_next_to_test(self@, position_of(self@, a)),
                None => forall|j: int|
                    0 <= j < self@.len() ==> (#[trigger] self@[j]).status != Status::Unverified,
            },
    {
        let mut best: Option<usize> = None;
        let mut i: usize = 0;
        while i < self.entries.len()
            invariant
                i <= self.entries@.len(),
                match best {
                    Some(b) => b < i && is_next_to_test(self.entries@.take(i as int), b as int),
                    None => forall|j: int|
                        0 <= j < i ==> (#[trigger] self.entries@[j]).status != Status::Unverified,
                },
            decreases self.entries@.len() - i,
        {
            let c = self.entries[i];
            let ghost prev = self.entries@.take(i as int);
            let ghost next = self.entries@.take(i + 1);
            proof {
                assert(forall|j: int| 0 <= j < i ==> prev[j] == next[j]);
                assert(next[i as int] == c);
            }
            if c.status == Status::Unverified {
                match best {
                    None => {
                        best = Some(i);
                    },
                    Some(b) => {
                        if earlier(c.last_tested, self.entries[b].last_tested) {
                            best = Some(i);
                        }
                    },
                }
            }
            i += 1;
            proof {
                match best {
                    Some(b) => {
                        assert(is_next_to_test(next, b as int));
                    },
                    None => {},
                }
            }
        }
        match best {
            Some(b) => {
                proof {
                    assert(self.entries@.take(i as int) == self.entries@);
                    lemma_position(self@, b as int);
                    let c = choose|k: int| is_next_to_test(self@, k);
                    lemma_next_to_test_unique(self@, b as int, c);
                }
                Some(self.entries[b].addr)
            },
            None => {
                proof {
                    assert forall|k: int| !is_next_to_test(self@, k) by {
                        if 0 <= k < self@.len() {
                            assert(self@[k].status != Status::Unverified);
                        }
                    }
                }
                None
            },
        }
    }
}

/// Whether something last done at `x` was done before something last done at
/// `y`, where never comes before any time.
pub fn earlier(x: Option<u64>, y: Option<u64>) -> (r: bool)
    ensures
        r == tested_before(x, y),
{
    match (x, y) {
        (None, Some(_)) => true,
        (Some(a), Some(b)) => a < b,
        _ => false,
    }
}

/// The entry `c` after a probe of its address at `now` ended with `outcome`.
pub fn mark_entry(c: CandidateAddress, outcome: ProbeOutcome, now: u64) -> (r: CandidateAddress)
    ensures
        r == spec_marked(c, outcome, now),
{
    match outcome {
        ProbeOutcome::Success => CandidateAddress {
            addr: c.addr,
            status: Status::Confirmed,
            last_tested: Some(now),
            invalid_refusals: 0,
        },
        ProbeOutcome::DialFailed(_) => CandidateAddress {
            addr: c.addr,
            status: c.status,
            last_tested: Some(now),
            invalid_refusals: c.invalid_refusals,
        },
        ProbeOutcome::Refused(RefusalReason::RateLimited) => c,
        ProbeOutcome::Refused(RefusalReason::InvalidAddress) => {
            if c.status != Status::Unverified {
                CandidateAddress {
                    addr: c.addr,
                    status: c.status,
                    last_tested: Some(now),
                    invalid_refusals: c.invalid_refusals,
                }
            } else if c.invalid_refusals >= INVALID_REFUSAL_LIMIT - 1 {
                CandidateAddress {
                    addr: c.addr,
                    status: Status::Refused,
                    last_tested: Some(now),
                    invalid_refusals: INVALID_REFUSAL_LIMIT,
                }
            } else {
                CandidateAddress {
                    addr: c.addr,
                    status: Status::Unverified,
                    last_tested: Some(now),
                    invalid_refusals: c.invalid_refusals + 1,
                }
            }
        },
    }
}

/// Marking keeps the address of every entry, so it keeps the entries distinct
/// and changes the status of no other address.
pub proof fn lemma_mark_keeps_others(
    s: Seq<CandidateAddress>,
    addr: Address,
    outcome: ProbeOutcome,
    now: u64,
    other: Address,
)
    requires
        distinct(s),
    ensures
        distinct(spec_mark(s, addr, outcome, now)),
        knows(spec_mark(s, addr, outcome, now), other) == knows(s, other),
        spec_mark(s, addr, outcome, now).len() == s.len(),
        other != addr ==> spec_status(spec_mark(s, addr, outcome, now), other) == spec_status(
            s,
            other,
        ),
        knows(s, addr) ==> spec_status(spec_mark(s, addr, outcome, now), addr) == Some(
            spec_marked(s[position_of(s, addr)], outcome, now).status,
        ),
{
    let t = spec_mark(s, addr, outcome, now);
    if knows(s, addr) {
        let p = position_of(s, addr);
        assert(forall|i: int| 0 <= i < s.len() ==> (#[trigger] t[i]).addr == s[i].addr);
        assert(distinct(t));
        if knows(s, other) {
            let q = position_of(s, other);
            assert(t[q].addr == other);
            lemma_position(t, q);
        }
        if knows(t, other) {
            let q = position_of(t, other);
            assert(s[q].addr == other);
            lemma_position(s, q);
        }
        assert(t[p].addr == addr);
        lemma_position(t, p);
    }
}

/// Confirmed results are idempotent: once a success is recorded for an
/// address, it is confirmed, a further success leaves it confirmed and
/// confirms nothing anew.
pub proof fn lemma_confirmed_idempotent(s: Seq<CandidateAddress>, addr: Address, t1: u64, t2: u64)
    requires
        distinct(s),
        knows(s, addr),
    ensures
        spec_status(spec_mark(s, addr, ProbeOutcome::Success, t1), addr) == Some(Status::Confirmed),
        !spec_newly_confirmed(
            spec_mark(s, addr, ProbeOutcome::Success, t1),
            addr,
            ProbeOutcome::Success,
        ),
        spec_status(
            spec_mark(
                spec_mark(s, addr, ProbeOutcome::Success, t1),
                addr,
                ProbeOutcome::Success,
                t2,
            ),
            addr,
        ) == Some(Status::Confirmed),
{
    let s1 = spec_mark(s, addr, ProbeOutcome::Success, t1);
    lemma_mark_keeps_others(s, addr, ProbeOutcome::Success, t1, addr);
    lemma_mark_keeps_others(s1, addr, ProbeOutcome::Success, t2, addr);
}

/// A failed dial, or a refusal for load, never changes a status: an address
/// that no server can reach stays unverified however often it is probed.
pub proof fn lemma_failure_keeps_status(
    s: Seq<CandidateAddress>,
    addr: Address,
    outcome: ProbeOutcome,
    now: u64,
    any: Address,
)
    requires
        distinct(s),
        outcome is DialFailed || outcome == ProbeOutcome::Refused(RefusalReason::RateLimited),
    ensures
        spec_status(spec_mark(s, addr, outcome, now), any) == spec_status(s, any),
{
    lemma_mark_keeps_others(s, addr, outcome, now, any);
}

/// An address becomes confirmed only by a success recorded for it.
pub proof fn lemma_confirmed_only_by_success(
    s: Seq<CandidateAddress>,
    addr: Address,
    outcome: ProbeOutcome,
    now: u64,
    any: Address,
)
    requires
        distinct(s),
        spec_status(s, any) != Some(Status::Confirmed),
        spec_status(spec_mark(s, addr, outcome, now), any) == Some(Status::Confirmed),
    ensures
        any == addr,
        outcome == ProbeOutcome::Success,
{
    lemma_mark_keeps_others(s, addr, outcome, now, any);
}

/// The snapshot of confirmed addresses holds exactly the addresses whose
/// status is `Confirmed`.
pub proof fn lemma_confirmed_members(s: Seq<CandidateAddress>, addr: Address)
    requires
        distinct(s),
    ensures
        spec_confirmed(s).contains(addr) <==> spec_status(s, addr) == Some(Status::Confirmed),
    decreases s.len(),
{
    if s.len() > 0 {
        let rest = s.drop_last();
        let n = s.len() - 1;
        assert(forall|i: int| 0 <= i < rest.len() ==> rest[i] == s[i]);
        lemma_confirmed_members(rest, addr);
        if knows(rest, addr) {
            let q = position_of(rest, addr);
            assert(s[q].addr == addr);
            lemma_position(s, q);
        }
        if s[n].addr == addr {
            lemma_position(s, n);
            assert(!knows(rest, addr));
        } else if knows(s, addr) {
            let q = position_of(s, addr);
            assert(rest[q].addr == addr);
        }
        let c = spec_confirmed(rest);
        if s[n].status == Status::Confirmed {
            assert(c.push(s[n].addr)[c.len() as int] == s[n].addr);
            assert(forall|i: int| 0 <= i < c.len() ==> c.push(s[n].addr)[i] == c[i]);
        }
    }
}

/// The snapshot of confirmed addresses names no address twice.
pub proof fn lemma_confirmed_no_duplicates(s: Seq<CandidateAddress>)
    requires
        distinct(s),
    ensures
        spec_confirmed(s).no_duplicates(),
    decreases s.len(),
{
    if s.len() > 0 {
        let rest = s.drop_last();
        let n = s.len() - 1;
        assert(forall|i: int| 0 <= i < rest.len() ==> rest[i] == s[i]);
        lemma_confirmed_no_duplicates(rest);
        lemma_confirmed_members(rest, s[n].addr);
        assert(!knows(rest, s[n].addr));
        let c = spec_confirmed(rest);
        assert(!c.contains(s[n].addr));
        if s[n].status == Status::Confirmed {
            let d = c.push(s[n].addr);
            assert forall|i: int, j: int| 0 <= i < d.len() && 0 <= j < d.len() && i != j implies d[i]
                != d[j] by {
                if i < c.len() {
                    assert(c.contains(d[i]));
                }
                if j < c.len() {
                    assert(c.contains(d[j]));
                }
            }
        }
    }
}

/// The entries after the probes of `addr` that ended with the outcomes and
/// at the times of `results` were recorded, in that order.
pub open spec fn spec_mark_all(
    s: Seq<CandidateAddress>,
    addr: Address,
    results: Seq<(ProbeOutcome, u64)>,
) -> Seq<CandidateAddress>
    decreases results.len(),
{
    if results.len() == 0 {
        s
    } else {
        spec_mark(
            spec_mark_all(s, addr, results.drop_last()),
            addr,
            results.last().0,
            results.last().1,
        )
    }
}

/// However many probes of an address end in a failed dial or a refusal for
/// load, no status changes: what was unverified stays unverified.
pub proof fn lemma_failures_never_confirm(
    s: Seq<CandidateAddress>,
    addr: Address,
    results: Seq<(ProbeOutcome, u64)>,
    any: Address,
)
    requires
        distinct(s),
        forall|i: int|
            0 <= i < results.len() ==> (#[trigger] results[i]).0 is DialFailed || results[i].0
                == ProbeOutcome::Refused(RefusalReason::RateLimited),
    ensures
        distinct(spec_mark_all(s, addr, results)),
        spec_status(spec_mark_all(s, addr, results), any) == spec_status(s, any),
    decreases results.len(),
{
    if results.len() > 0 {
        let before = results.drop_last();
        assert(forall|i: int| 0 <= i < before.len() ==> before[i] == results[i]);
        lemma_failures_never_confirm(s, addr, before, any);
        let mid = spec_mark_all(s, addr, before);
        let last = results[results.len() - 1];
        lemma_mark_keeps_others(mid, addr, last.0, last.1, any);
    }
}

} // verus!
