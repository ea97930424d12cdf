use autonat_probe::rate_limit::RateLimiter;
use autonat_probe::server::{
    first_dialable, report, DialBackAttempt, DialBackVerifier, DialResult, ServerAction,
};
use autonat_probe::wire::{
    Address, DialBackResponse, DialError, PeerId, ProbeOutcome, ProbeRequest, RefusalReason,
    Transport,
};

fn addr(ip: u32, port: u16) -> Address {
    Address { ip, port, transport: Transport::Tcp }
}

fn request(nonce: u64, addresses: Vec<Address>, hint: u64) -> ProbeRequest {
    ProbeRequest { nonce, addresses, requester_hint: PeerId { id: hint } }
}

const PUBLIC: u32 = 0x0808_0808;

#[test]
fn public_and_private_ranges() {
    assert!(addr(PUBLIC, 4001).is_dialable());
    assert!(!addr(PUBLIC, 0).is_dialable());
    assert!(!addr(0x0A00_0001, 4001).is_dialable());
    assert!(!addr(0x7F00_0001, 4001).is_dialable());
    assert!(!addr(0xC0A8_0101, 4001).is_dialable());
    assert!(!addr(0xAC10_0001, 4001).is_dialable());
    assert!(!addr(0xAC1F_FFFF, 4001).is_dialable());
    assert!(addr(0xAC20_0001, 4001).is_dialable());
    assert!(addr(0xAC0F_0001, 4001).is_dialable());
    assert!(!addr(0xA9FE_0101, 4001).is_dialable());
    assert!(!addr(0xE000_0001, 4001).is_dialable());
    assert!(addr(0xDFFF_FFFF, 4001).is_dialable());
    assert!(!addr(0, 4001).is_dialable());
    assert_eq!(Address::unspecified(), addr(0, 0));
}

#[test]
fn first_dialable_skips_private_addresses() {
    assert_eq!(first_dialable(&vec![]), None);
    assert_eq!(first_dialable(&vec![addr(0x0A00_0001, 1)]), None);
    assert_eq!(
        first_dialable(&vec![addr(0x0A00_0001, 1), addr(PUBLIC, 2), addr(0x0101_0101, 3)]),
        Some(1)
    );
    assert_eq!(first_dialable(&vec![addr(PUBLIC, 2)]), Some(0));
}

#[test]
fn limiter_counts_over_a_sliding_span() {
    let mut l = RateLimiter::new(2, 1000);
    assert_eq!(l.quota(), 2);
    assert_eq!(l.span(), 1000);
    assert_eq!(l.log_of(7), Vec::<u64>::new());
    assert!(l.allow(7, 100));
    assert_eq!(l.log_of(7), vec![100]);
    assert!(l.allow(7, 500));
    assert_eq!(l.log_of(7), vec![100, 500]);
    assert!(!l.allow(7, 1099));
    assert_eq!(l.log_of(7), vec![100, 500]);
    assert!(l.allow(7, 1100));
    assert_eq!(l.log_of(7), vec![500, 1100]);
    assert!(!l.allow(7, 1499));
    assert!(l.allow(7, 1500));
    assert_eq!(l.log_of(7), vec![1100, 1500]);
}

#[test]
fn limiter_keeps_requesters_apart() {
    let mut l = RateLimiter::new(1, 1000);
    assert!(l.allow(1, 0));
    assert!(!l.allow(1, 1));
    assert!(l.allow(2, 1));
    assert_eq!(l.log_of(1), vec![0]);
    assert_eq!(l.log_of(2), vec![1]);
}

#[test]
fn burst_across_the_end_of_a_span_is_held_to_the_quota() {
    let mut l = RateLimiter::new(10, 1000);
    assert!(l.allow(1, 0));
    for _ in 0..9 {
        assert!(l.allow(1, 999));
    }
    assert!(!l.allow(1, 999));
    assert!(l.allow(1, 1000));
    assert!(!l.allow(1, 1000));
    assert!(!l.allow(1, 1998));
    assert_eq!(l.log_of(1), vec![999, 999, 999, 999, 999, 999, 999, 999, 999, 1000]);
    assert!(l.allow(1, 1999));
}

#[test]
fn no_span_holds_more_dials_than_the_quota() {
    let mut s = DialBackVerifier::new(10, 1000);
    let target = addr(PUBLIC, 4001);
    let me = PeerId { id: 5 };
    let mut dialed: Vec<u64> = Vec::new();
    let mut nonce = 0;
    for step in 0..400u64 {
        let now = step * 37 % 3000 / 3 + step * 5;
        let now = now.max(dialed.last().copied().unwrap_or(0));
        for _ in 0..3 {
            nonce += 1;
            if let ServerAction::Dial(_) = s.handle_request(&request(nonce, vec![target], 5), me, now) {
                dialed.push(now);
            }
        }
    }
    assert!(dialed.len() > 10);
    for i in 0..dialed.len() {
        let in_span = dialed.iter().filter(|t| dialed[i] <= **t && **t - dialed[i] < 1000).count();
        assert!(in_span <= 10);
    }
}

#[test]
fn limiter_with_zero_quota_refuses_all() {
    let mut l = RateLimiter::new(0, 1000);
    assert!(!l.allow(1, 0));
    assert!(!l.allow(1, 5000));
    assert_eq!(l.log_of(1), Vec::<u64>::new());
}

#[test]
fn limiter_counts_backward_clock_as_no_time_passed() {
    let mut l = RateLimiter::new(2, 10);
    assert!(l.allow(1, 100));
    assert!(l.allow(1, 50));
    assert_eq!(l.log_of(1), vec![100, 100]);
    assert!(!l.allow(1, 50));
    assert!(!l.allow(1, 109));
    assert!(l.allow(1, 110));
    assert_eq!(l.log_of(1), vec![100, 110]);
}

#[test]
fn reachable_address_is_reported_ok() {
    let mut s = DialBackVerifier::new(10, 1000);
    let target = addr(PUBLIC, 4001);
    let action = s.handle_request(&request(42, vec![target], 5), PeerId { id: 5 }, 0);
    let attempt = DialBackAttempt { nonce: 42, requester: PeerId { id: 5 }, target };
    assert_eq!(action, ServerAction::Dial(attempt));
    assert!(s.is_pending(42));
    let resp = s.complete_dial(42, DialResult::Connected { bytes_sent: 128 });
    assert_eq!(
        resp,
        Some(DialBackResponse {
            nonce: 42,
            tested_addr: target,
            bytes_sent: 128,
            outcome: ProbeOutcome::Success,
        })
    );
    assert!(!s.is_pending(42));
    assert_eq!(s.complete_dial(42, DialResult::Connected { bytes_sent: 128 }), None);
}

#[test]
fn unreachable_address_is_reported_err() {
    let mut s = DialBackVerifier::new(10, 1000);
    let target = addr(PUBLIC, 4001);
    for (nonce, e) in [
        (1u64, DialError::Timeout),
        (2, DialError::ConnectionRefused),
        (3, DialError::Unreachable),
    ] {
        let action = s.handle_request(&request(nonce, vec![target], 5), PeerId { id: 5 }, 0);
        assert!(matches!(action, ServerAction::Dial(_)));
        let resp = s.complete_dial(nonce, DialResult::Failed(e)).unwrap();
        assert_eq!(resp.outcome, ProbeOutcome::DialFailed(e));
        assert_eq!(resp.bytes_sent, 0);
        assert_eq!(resp.tested_addr, target);
        assert_eq!(resp.nonce, nonce);
    }
}

#[test]
fn connection_without_bytes_is_no_success() {
    let attempt = DialBackAttempt { nonce: 9, requester: PeerId { id: 5 }, target: addr(PUBLIC, 1) };
    let resp = report(attempt, DialResult::Connected { bytes_sent: 0 });
    assert_eq!(resp.outcome, ProbeOutcome::DialFailed(DialError::HandshakeIncomplete));
    assert_eq!(resp.bytes_sent, 0);
    let resp = report(attempt, DialResult::Connected { bytes_sent: 1 });
    assert_eq!(resp.outcome, ProbeOutcome::Success);
    assert_eq!(resp.bytes_sent, 1);
}

#[test]
fn invalid_requests_are_refused_without_dial() {
    let mut s = DialBackVerifier::new(10, 1000);
    let private = addr(0xC0A8_0101, 4001);
    let refused = |nonce: u64, a: Address| {
        ServerAction::Respond(DialBackResponse {
            nonce,
            tested_addr: a,
            bytes_sent: 0,
            outcome: ProbeOutcome::Refused(RefusalReason::InvalidAddress),
        })
    };
    let action = s.handle_request(&request(1, vec![private], 5), PeerId { id: 5 }, 0);
    assert_eq!(action, refused(1, private));
    let action = s.handle_request(&request(2, vec![], 5), PeerId { id: 5 }, 0);
    assert_eq!(action, refused(2, Address::unspecified()));
    let action = s.handle_request(&request(3, vec![addr(PUBLIC, 1)], 6), PeerId { id: 5 }, 0);
    assert_eq!(action, refused(3, addr(PUBLIC, 1)));
    assert!(!s.is_pending(1));
    assert!(!s.is_pending(2));
    assert!(!s.is_pending(3));
}

#[test]
fn server_dials_first_dialable_address_only() {
    let mut s = DialBackVerifier::new(10, 1000);
    let addrs = vec![addr(0x0A00_0001, 1), addr(PUBLIC, 2), addr(0x0101_0101, 3)];
    let action = s.handle_request(&request(1, addrs, 5), PeerId { id: 5 }, 0);
    assert_eq!(
        action,
        ServerAction::Dial(DialBackAttempt {
            nonce: 1,
            requester: PeerId { id: 5 },
            target: addr(PUBLIC, 2),
        })
    );
}

#[test]
fn nonce_of_dial_under_way_is_dropped() {
    let mut s = DialBackVerifier::new(10, 1000);
    let req = request(1, vec![addr(PUBLIC, 2)], 5);
    assert!(matches!(s.handle_request(&req, PeerId { id: 5 }, 0), ServerAction::Dial(_)));
    assert_eq!(s.handle_request(&req, PeerId { id: 5 }, 1), ServerAction::Drop);
    assert!(s.abandon(1));
    assert!(!s.abandon(1));
    assert!(matches!(s.handle_request(&req, PeerId { id: 5 }, 2), ServerAction::Dial(_)));
}

#[test]
fn requests_beyond_quota_are_rate_limited() {
    let mut s = DialBackVerifier::new(2, 1000);
    let target = addr(PUBLIC, 4001);
    let me = PeerId { id: 5 };
    assert!(matches!(s.handle_request(&request(1, vec![target], 5), me, 0), ServerAction::Dial(_)));
    assert!(matches!(s.handle_request(&request(2, vec![target], 5), me, 1), ServerAction::Dial(_)));
    let action = s.handle_request(&request(3, vec![target], 5), me, 2);
    assert_eq!(
        action,
        ServerAction::Respond(DialBackResponse {
            nonce: 3,
            tested_addr: target,
            bytes_sent: 0,
            outcome: ProbeOutcome::Refused(RefusalReason::RateLimited),
        })
    );
    assert!(!s.is_pending(3));
    let other = PeerId { id: 6 };
    assert!(matches!(s.handle_request(&request(4, vec![target], 6), other, 2), ServerAction::Dial(_)));
}

#[test]
fn hundred_requests_against_quota_of_ten() {
    let mut s = DialBackVerifier::new(10, 1000);
    let target = addr(PUBLIC, 4001);
    let me = PeerId { id: 5 };
    let mut dials = 0;
    let mut limited = 0;
    for i in 0..100u64 {
        match s.handle_request(&request(i, vec![target], 5), me, i * 10) {
            ServerAction::Dial(a) => {
                dials += 1;
                assert!(s.is_pending(a.nonce));
            }
            ServerAction::Respond(r) => {
                assert_eq!(r.outcome, ProbeOutcome::Refused(RefusalReason::RateLimited));
                assert_eq!(r.bytes_sent, 0);
                assert!(!s.is_pending(r.nonce));
                limited += 1;
            }
            ServerAction::Drop => panic!("no nonce repeats"),
        }
    }
    assert_eq!(dials, 10);
    assert_eq!(limited, 90);
}

#[test]
fn forgotten_requester_starts_anew() {
    let mut l = RateLimiter::new(1, 1000);
    assert!(l.allow(1, 0));
    assert!(!l.allow(1, 1));
    assert!(l.forget(1));
    assert!(!l.forget(1));
    assert!(l.allow(1, 2));
    let mut s = DialBackVerifier::new(1, 1000);
    let me = PeerId { id: 5 };
    let target = addr(PUBLIC, 4001);
    assert!(matches!(s.handle_request(&request(1, vec![target], 5), me, 0), ServerAction::Dial(_)));
    assert!(matches!(s.handle_request(&request(2, vec![target], 5), me, 1), ServerAction::Respond(_)));
    assert!(s.forget_requester(me));
    assert!(!s.forget_requester(me));
    assert!(s.is_pending(1));
    assert!(matches!(s.handle_request(&request(2, vec![target], 5), me, 2), ServerAction::Dial(_)));
}
