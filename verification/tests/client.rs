use autonat_probe::address_book::{
    earlier, mark_entry, AddressBook, CandidateAddress, Status, INVALID_REFUSAL_LIMIT,
};
use autonat_probe::nonce::{fresh_nonce, nonce_of};
use autonat_probe::scheduler::{
    is_due, ClientEvent, PeerProbeState, ProbeScheduler, RequestState,
};
use autonat_probe::server::{DialBackVerifier, DialResult, ServerAction};
use autonat_probe::wire::{
    Address, DialBackResponse, DialError, PeerId, ProbeOutcome, RefusalReason, Transport,
};

fn addr(ip: u32, port: u16) -> Address {
    Address { ip, port, transport: Transport::QuicV1 }
}

const A: u32 = 0x0808_0808;
const B: u32 = 0x0101_0101;

fn answer(nonce: u64, tested_addr: Address, bytes_sent: u64, outcome: ProbeOutcome) -> DialBackResponse {
    DialBackResponse { nonce, tested_addr, bytes_sent, outcome }
}

#[test]
fn book_adds_each_address_once() {
    let mut book = AddressBook::new();
    assert_eq!(book.len(), 0);
    assert!(book.add_candidate(addr(A, 1)));
    assert!(!book.add_candidate(addr(A, 1)));
    assert!(book.add_candidate(addr(A, 2)));
    assert_eq!(book.len(), 2);
    assert_eq!(book.position(addr(A, 2)), Some(1));
    assert_eq!(book.position(addr(B, 2)), None);
    assert_eq!(
        book.get(addr(A, 1)),
        Some(CandidateAddress {
            addr: addr(A, 1),
            status: Status::Unverified,
            last_tested: None,
            invalid_refusals: 0,
        })
    );
    assert_eq!(book.status(addr(B, 1)), None);
}

#[test]
fn readding_keeps_status() {
    let mut book = AddressBook::new();
    book.add_candidate(addr(A, 1));
    assert!(book.mark_result(addr(A, 1), ProbeOutcome::Success, 5));
    assert!(!book.add_candidate(addr(A, 1)));
    assert_eq!(book.status(addr(A, 1)), Some(Status::Confirmed));
}

#[test]
fn confirmed_results_are_idempotent() {
    let mut book = AddressBook::new();
    book.add_candidate(addr(A, 1));
    assert!(book.mark_result(addr(A, 1), ProbeOutcome::Success, 5));
    assert_eq!(book.status(addr(A, 1)), Some(Status::Confirmed));
    assert!(!book.mark_result(addr(A, 1), ProbeOutcome::Success, 6));
    assert_eq!(book.status(addr(A, 1)), Some(Status::Confirmed));
    assert_eq!(book.get(addr(A, 1)).unwrap().last_tested, Some(6));
    assert_eq!(book.confirmed_addresses(), vec![addr(A, 1)]);
}

#[test]
fn failure_after_confirmation_keeps_confirmed() {
    let mut book = AddressBook::new();
    book.add_candidate(addr(A, 1));
    book.mark_result(addr(A, 1), ProbeOutcome::Success, 5);
    assert!(!book.mark_result(addr(A, 1), ProbeOutcome::DialFailed(DialError::Timeout), 6));
    assert!(!book.mark_result(addr(A, 1), ProbeOutcome::Refused(RefusalReason::InvalidAddress), 7));
    assert_eq!(book.status(addr(A, 1)), Some(Status::Confirmed));
}

#[test]
fn marking_unknown_address_changes_nothing() {
    let mut book = AddressBook::new();
    book.add_candidate(addr(A, 1));
    assert!(!book.mark_result(addr(B, 1), ProbeOutcome::Success, 5));
    assert_eq!(book.len(), 1);
    assert_eq!(book.status(addr(A, 1)), Some(Status::Unverified));
    assert_eq!(book.confirmed_addresses(), Vec::<Address>::new());
}

#[test]
fn repeated_invalid_refusals_downgrade() {
    assert_eq!(INVALID_REFUSAL_LIMIT, 3);
    let mut book = AddressBook::new();
    book.add_candidate(addr(A, 1));
    let invalid = ProbeOutcome::Refused(RefusalReason::InvalidAddress);
    book.mark_result(addr(A, 1), invalid, 1);
    assert_eq!(book.get(addr(A, 1)).unwrap().invalid_refusals, 1);
    book.mark_result(addr(A, 1), invalid, 2);
    assert_eq!(book.status(addr(A, 1)), Some(Status::Unverified));
    book.mark_result(addr(A, 1), invalid, 3);
    assert_eq!(book.status(addr(A, 1)), Some(Status::Refused));
    assert_eq!(book.get(addr(A, 1)).unwrap().invalid_refusals, 3);
    assert_eq!(book.next_to_test(), None);
}

#[test]
fn rate_limited_refusal_is_no_test() {
    let c = CandidateAddress {
        addr: addr(A, 1),
        status: Status::Unverified,
        last_tested: Some(4),
        invalid_refusals: 2,
    };
    assert_eq!(mark_entry(c, ProbeOutcome::Refused(RefusalReason::RateLimited), 9), c);
    let failed = mark_entry(c, ProbeOutcome::DialFailed(DialError::Unreachable), 9);
    assert_eq!(failed.status, Status::Unverified);
    assert_eq!(failed.last_tested, Some(9));
    assert_eq!(failed.invalid_refusals, 2);
    let ok = mark_entry(c, ProbeOutcome::Success, 9);
    assert_eq!(ok.status, Status::Confirmed);
    assert_eq!(ok.invalid_refusals, 0);
}

#[test]
fn next_to_test_prefers_never_tested_then_oldest() {
    let mut book = AddressBook::new();
    assert_eq!(book.next_to_test(), None);
    book.add_candidate(addr(A, 1));
    book.add_candidate(addr(A, 2));
    book.add_candidate(addr(A, 3));
    assert_eq!(book.next_to_test(), Some(addr(A, 1)));
    book.mark_result(addr(A, 1), ProbeOutcome::DialFailed(DialError::Timeout), 10);
    assert_eq!(book.next_to_test(), Some(addr(A, 2)));
    book.mark_result(addr(A, 2), ProbeOutcome::DialFailed(DialError::Timeout), 5);
    assert_eq!(book.next_to_test(), Some(addr(A, 3)));
    book.mark_result(addr(A, 3), ProbeOutcome::Success, 1);
    assert_eq!(book.next_to_test(), Some(addr(A, 2)));
    book.mark_result(addr(A, 2), ProbeOutcome::DialFailed(DialError::Timeout), 10);
    assert_eq!(book.next_to_test(), Some(addr(A, 1)));
}

#[test]
fn confirmed_snapshot_keeps_order() {
    let mut book = AddressBook::new();
    book.add_candidate(addr(A, 1));
    book.add_candidate(addr(A, 2));
    book.add_candidate(addr(A, 3));
    book.mark_result(addr(A, 3), ProbeOutcome::Success, 1);
    book.mark_result(addr(A, 1), ProbeOutcome::Success, 2);
    assert_eq!(book.confirmed_addresses(), vec![addr(A, 1), addr(A, 3)]);
}

#[test]
fn server_is_due_after_interval() {
    let s = PeerProbeState { server: PeerId { id: 1 }, last_probe: None, interval: 10 };
    assert!(is_due(s, 0));
    let s = PeerProbeState { server: PeerId { id: 1 }, last_probe: Some(100), interval: 10 };
    assert!(!is_due(s, 109));
    assert!(is_due(s, 110));
    assert!(!is_due(s, 50));
}

#[test]
fn event_states_are_terminal() {
    let probed = |outcome| ClientEvent::Probed {
        server: PeerId { id: 1 },
        tested_addr: addr(A, 1),
        bytes_sent: 0,
        outcome,
        newly_confirmed: false,
    };
    assert_eq!(probed(ProbeOutcome::Success).state(), RequestState::MatchedOk);
    assert_eq!(
        probed(ProbeOutcome::DialFailed(DialError::Timeout)).state(),
        RequestState::MatchedErr
    );
    assert_eq!(
        probed(ProbeOutcome::Refused(RefusalReason::RateLimited)).state(),
        RequestState::MatchedErr
    );
    let timed_out = ClientEvent::TimedOut { server: PeerId { id: 1 }, tested_addr: addr(A, 1) };
    assert_eq!(timed_out.state(), RequestState::TimedOut);
}

#[test]
fn probe_needs_server_address_and_free_nonce() {
    let mut c = ProbeScheduler::new(PeerId { id: 1 }, 2, 10, 5);
    assert!(c.start_probe(0, 7).is_none());
    assert!(c.add_server(PeerId { id: 2 }));
    assert!(!c.add_server(PeerId { id: 2 }));
    assert!(c.start_probe(0, 7).is_none());
    assert!(c.add_candidate(addr(A, 1)));
    let (server, request) = c.start_probe(0, 7).unwrap();
    assert_eq!(server, PeerId { id: 2 });
    assert_eq!(request.nonce, 7);
    assert_eq!(request.addresses, vec![addr(A, 1)]);
    assert_eq!(request.requester_hint, PeerId { id: 1 });
    assert!(c.is_outstanding(7));
    assert!(c.start_probe(1, 8).is_none());
    assert!(!c.is_outstanding(8));
    assert!(c.start_probe(2, 7).is_none());
    assert!(c.start_probe(2, 8).is_some());
}

#[test]
fn servers_are_probed_least_recent_first() {
    let mut c = ProbeScheduler::new(PeerId { id: 1 }, 5, 10, 5);
    c.add_candidate(addr(A, 1));
    c.add_server(PeerId { id: 2 });
    c.add_server(PeerId { id: 3 });
    assert_eq!(c.next_server(0), Some(0));
    assert_eq!(c.start_probe(0, 1).unwrap().0, PeerId { id: 2 });
    assert_eq!(c.start_probe(1, 2).unwrap().0, PeerId { id: 3 });
    assert!(c.start_probe(4, 3).is_none());
    assert_eq!(c.start_probe(6, 3).unwrap().0, PeerId { id: 2 });
    assert_eq!(c.find_server(PeerId { id: 3 }), Some(1));
    assert!(c.remove_server(PeerId { id: 2 }));
    assert!(!c.remove_server(PeerId { id: 2 }));
    assert_eq!(c.find_server(PeerId { id: 3 }), Some(0));
    assert_eq!(c.start_probe(6, 4).unwrap().0, PeerId { id: 3 });
}

#[test]
fn unmatched_response_is_ignored() {
    let mut c = ProbeScheduler::new(PeerId { id: 1 }, 2, 10, 5);
    c.add_candidate(addr(A, 1));
    c.add_server(PeerId { id: 2 });
    c.start_probe(0, 7).unwrap();
    let ok = ProbeOutcome::Success;
    assert_eq!(c.on_response(PeerId { id: 2 }, answer(8, addr(A, 1), 10, ok), 1), None);
    assert_eq!(c.on_response(PeerId { id: 3 }, answer(7, addr(A, 1), 10, ok), 1), None);
    assert_eq!(c.on_response(PeerId { id: 2 }, answer(7, addr(B, 1), 10, ok), 1), None);
    assert!(c.is_outstanding(7));
    assert_eq!(c.book().status(addr(A, 1)), Some(Status::Unverified));
    assert_eq!(c.book().get(addr(A, 1)).unwrap().last_tested, None);
}

#[test]
fn timeout_leaves_book_unchanged() {
    let mut c = ProbeScheduler::new(PeerId { id: 1 }, 2, 10, 5);
    c.add_candidate(addr(A, 1));
    c.add_server(PeerId { id: 2 });
    c.start_probe(100, 7).unwrap();
    assert_eq!(c.on_timeout(7, 109), None);
    assert!(c.is_outstanding(7));
    assert_eq!(c.on_timeout(8, 200), None);
    let e = c.on_timeout(7, 110).unwrap();
    assert_eq!(e, ClientEvent::TimedOut { server: PeerId { id: 2 }, tested_addr: addr(A, 1) });
    assert_eq!(e.state(), RequestState::TimedOut);
    assert!(!c.is_outstanding(7));
    assert_eq!(c.book().status(addr(A, 1)), Some(Status::Unverified));
    assert_eq!(c.book().get(addr(A, 1)).unwrap().last_tested, None);
    let late = answer(7, addr(A, 1), 10, ProbeOutcome::Success);
    assert_eq!(c.on_response(PeerId { id: 2 }, late, 111), None);
    assert_eq!(c.book().status(addr(A, 1)), Some(Status::Unverified));
}

#[test]
fn deadline_saturates() {
    let mut c = ProbeScheduler::new(PeerId { id: 1 }, 2, u64::MAX, 5);
    c.add_candidate(addr(A, 1));
    c.add_server(PeerId { id: 2 });
    c.start_probe(100, 7).unwrap();
    assert_eq!(c.on_timeout(7, u64::MAX - 1), None);
    assert!(c.on_timeout(7, u64::MAX).is_some());
}

#[test]
fn abandoned_probe_leaves_no_trace() {
    let mut c = ProbeScheduler::new(PeerId { id: 1 }, 2, 10, 5);
    c.add_candidate(addr(A, 1));
    c.add_server(PeerId { id: 2 });
    c.start_probe(100, 7).unwrap();
    assert!(c.abandon(7));
    assert!(!c.abandon(7));
    assert!(!c.is_outstanding(7));
    assert_eq!(c.book().get(addr(A, 1)).unwrap().last_tested, None);
}

#[test]
fn refusal_is_matched_by_nonce_alone() {
    let mut c = ProbeScheduler::new(PeerId { id: 1 }, 2, 10, 5);
    c.add_candidate(addr(A, 1));
    c.add_server(PeerId { id: 2 });
    c.start_probe(0, 7).unwrap();
    let limited = ProbeOutcome::Refused(RefusalReason::RateLimited);
    let e = c.on_response(PeerId { id: 2 }, answer(7, Address::unspecified(), 0, limited), 1);
    assert_eq!(
        e,
        Some(ClientEvent::Probed {
            server: PeerId { id: 2 },
            tested_addr: addr(A, 1),
            bytes_sent: 0,
            outcome: limited,
            newly_confirmed: false,
        })
    );
    assert_eq!(c.book().get(addr(A, 1)).unwrap().last_tested, None);
}

#[test]
fn reachable_client_is_confirmed_after_one_cycle() {
    let me = PeerId { id: 1 };
    let srv = PeerId { id: 2 };
    let a = addr(A, 4001);
    let mut client = ProbeScheduler::new(me, 2, 10, 5);
    let mut server = DialBackVerifier::new(10, 1000);
    client.add_candidate(a);
    client.add_server(srv);
    let (to, request) = client.start_probe(0, 99).unwrap();
    assert_eq!(to, srv);
    let attempt = match server.handle_request(&request, me, 0) {
        ServerAction::Dial(attempt) => attempt,
        other => panic!("{:?}", other),
    };
    assert_eq!(attempt.target, a);
    let resp = server.complete_dial(attempt.nonce, DialResult::Connected { bytes_sent: 64 }).unwrap();
    let event = client.on_response(srv, resp, 1);
    assert_eq!(
        event,
        Some(ClientEvent::Probed {
            server: srv,
            tested_addr: a,
            bytes_sent: 64,
            outcome: ProbeOutcome::Success,
            newly_confirmed: true,
        })
    );
    assert_eq!(client.book().status(a), Some(Status::Confirmed));
    assert_eq!(client.book().confirmed_addresses(), vec![a]);
    assert_eq!(client.on_response(srv, resp, 2), None);
    assert!(client.start_probe(5, 100).is_none());
}

#[test]
fn client_behind_nat_stays_unverified() {
    let me = PeerId { id: 1 };
    let srv = PeerId { id: 2 };
    let a = addr(A, 4001);
    let mut client = ProbeScheduler::new(me, 2, 10, 5);
    let mut server = DialBackVerifier::new(10, 1);
    client.add_candidate(a);
    client.add_server(srv);
    for cycle in 0..50u64 {
        let now = cycle * 2;
        let (_, request) = client.start_probe(now, cycle).unwrap();
        let attempt = match server.handle_request(&request, me, now) {
            ServerAction::Dial(attempt) => attempt,
            other => panic!("{:?}", other),
        };
        let resp = server
            .complete_dial(attempt.nonce, DialResult::Failed(DialError::Unreachable))
            .unwrap();
        let event = client.on_response(srv, resp, now + 1).unwrap();
        assert_eq!(event.state(), RequestState::MatchedErr);
        assert_eq!(client.book().status(a), Some(Status::Unverified));
    }
    assert_eq!(client.book().confirmed_addresses(), Vec::<Address>::new());
}

#[test]
fn nonce_is_read_little_endian() {
    assert_eq!(nonce_of(&vec![1, 2, 0, 0, 0, 0, 0, 0]), Some(0x0201));
    assert_eq!(nonce_of(&vec![0, 0, 0, 0, 0, 0, 0, 0x80]), Some(1 << 63));
    assert_eq!(nonce_of(&vec![1, 2, 3]), None);
    assert_eq!(nonce_of(&vec![0; 9]), None);
}

#[test]
fn fresh_probe_uses_a_drawn_nonce() {
    let _ = fresh_nonce();
    let mut c = ProbeScheduler::new(PeerId { id: 1 }, 2, 10, 5);
    assert!(c.start_probe_fresh(0).is_none());
    c.add_candidate(addr(A, 1));
    c.add_server(PeerId { id: 2 });
    if let Some((server, request)) = c.start_probe_fresh(0) {
        assert_eq!(server, PeerId { id: 2 });
        assert_eq!(request.addresses, vec![addr(A, 1)]);
        assert!(c.is_outstanding(request.nonce));
    }
}

#[test]
fn timed_out_nonce_is_held_back_for_the_grace_time() {
    let mut c = ProbeScheduler::new(PeerId { id: 1 }, 2, 10, 5);
    c.add_candidate(addr(A, 1));
    c.add_server(PeerId { id: 2 });
    c.start_probe(100, 7).unwrap();
    assert!(!c.is_held_back(7, 105));
    assert!(c.on_timeout(7, 110).is_some());
    assert!(c.is_held_back(7, 110));
    assert!(c.is_held_back(7, 114));
    assert!(!c.is_held_back(7, 115));
    assert!(c.start_probe(112, 7).is_none());
    assert!(!c.is_outstanding(7));
    let (_, request) = c.start_probe(115, 7).unwrap();
    assert_eq!(request.nonce, 7);
    assert!(c.is_outstanding(7));
    assert!(!c.is_held_back(7, 0));
}

#[test]
fn retired_nonce_is_released_after_the_grace_time() {
    let mut c = ProbeScheduler::new(PeerId { id: 1 }, 2, 10, 5);
    c.add_candidate(addr(A, 1));
    c.add_server(PeerId { id: 2 });
    c.start_probe(100, 7).unwrap();
    assert!(!c.release(7, 200));
    c.on_timeout(7, 110);
    assert!(!c.release(7, 114));
    assert!(c.is_held_back(7, 114));
    assert!(c.release(7, 115));
    assert!(!c.release(7, 115));
    assert!(!c.is_held_back(7, 0));
}

#[test]
fn many_failures_never_confirm() {
    let mut book = AddressBook::new();
    book.add_candidate(addr(A, 1));
    book.add_candidate(addr(B, 1));
    for t in 0..1000u64 {
        let outcome = if t % 2 == 0 {
            ProbeOutcome::DialFailed(DialError::Timeout)
        } else {
            ProbeOutcome::Refused(RefusalReason::RateLimited)
        };
        assert!(!book.mark_result(addr(A, 1), outcome, t));
    }
    assert_eq!(book.status(addr(A, 1)), Some(Status::Unverified));
    assert_eq!(book.status(addr(B, 1)), Some(Status::Unverified));
    assert_eq!(book.get(addr(A, 1)).unwrap().last_tested, Some(998));
}

#[test]
fn never_comes_before_any_time() {
    assert!(earlier(None, Some(0)));
    assert!(earlier(Some(1), Some(2)));
    assert!(!earlier(Some(2), Some(2)));
    assert!(!earlier(Some(3), Some(2)));
    assert!(!earlier(Some(3), None));
    assert!(!earlier(None, None));
}

#[test]
fn book_stays_well_formed() {
    let mut book = AddressBook::new();
    assert!(book.is_wf());
    book.add_candidate(addr(A, 1));
    book.add_candidate(addr(A, 1));
    book.add_candidate(addr(B, 1));
    book.mark_result(addr(A, 1), ProbeOutcome::Success, 1);
    assert!(book.is_wf());
    assert_eq!(book.len(), 2);
}
