//! The wire form of the two messages: fixed-width fields, numbers
//! little-endian, the protocol version in the first byte.
//!
//! A request is the version, the kind, the nonce, the requester, the number
//! of addresses in one byte, then the addresses. A response is the version,
//! the kind, the nonce, the tested address, the bytes sent and the outcome in
//! one byte. An address is the transport in one byte, the IPv4 address and
//! the port.

use crate::wire::{
    Address, DialBackResponse, DialError, PeerId, ProbeOutcome, ProbeRequest, RefusalReason,
    RequestModel, Transport,
};
use vstd::bytes::{
    lemma_auto_spec_u16_to_from_le_bytes, lemma_auto_spec_u32_to_from_le_bytes,
    lemma_auto_spec_u64_to_from_le_bytes, spec_u16_from_le_bytes, spec_u16_to_le_bytes,
    spec_u32_from_le_bytes, spec_u32_to_le_bytes, spec_u64_from_le_bytes, spec_u64_to_le_bytes,
    u16_from_le_bytes, u16_to_le_bytes, u32_from_le_bytes, u32_to_le_bytes, u64_from_le_bytes,
    u64_to_le_bytes,
};
use vstd::prelude::*;
use vstd::slice::slice_subrange;

verus! {

/// The version of the protocol that these messages belong to. Messages of
/// another version are refused, never read.
pub const PROTOCOL_VERSION: u8 = 2;

/// The name under which streams of this protocol are negotiated. It holds
/// the version, so that revisions that do not fit are never mixed.
pub fn protocol_id() -> (r: &'static str)
    ensures
        r@ == "/autonat/2/dial-request"@,
{
    "/autonat/2/dial-request"
}

/// The second byte of a request.
pub const KIND_REQUEST: u8 = 1;

/// The second byte of a response.
pub const KIND_RESPONSE: u8 = 2;

/// Why bytes were not read, or a message not written.
#[derive(Clone, Copy, Debug, PartialEq, Eq, Structural)]
pub enum WireError {
    /// The first byte is not this protocol's version.
    UnsupportedVersion,
    /// The bytes are not a message of the kind asked for.
    Malformed,
    /// A request names more addresses than its count byte can say.
    TooManyAddresses,
}

/// The byte that stands for the transport `t`.
pub open spec fn spec_transport_code(t: Transport) -> u8 {
    match t {
        Transport::Tcp => 0,
        Transport::QuicV1 => 1,
    }
}

/// The byte that stands for the outcome `o`.
pub open spec fn spec_outcome_code(o: ProbeOutcome) -> u8 {
    match o {
        ProbeOutcome::Success => 0,
        ProbeOutcome::DialFailed(DialError::Timeout) => 1,
        ProbeOutcome::DialFailed(DialError::ConnectionRefused) => 2,
        ProbeOutcome::DialFailed(DialError::Unreachable) => 3,
        ProbeOutcome::DialFailed(DialError::HandshakeIncomplete) => 4,
        ProbeOutcome::Refused(RefusalReason::InvalidAddress) => 5,
        ProbeOutcome::Refused(RefusalReason::RateLimited) => 6,
    }
}

/// The outcome that the byte `c` stands for, if any.
pub open spec fn spec_outcome_of(c: u8) -> Option<ProbeOutcome> {
    if c == 0 {
        Some(ProbeOutcome::Success)
    } else if c == 1 {
        Some(ProbeOutcome::DialFailed(DialError::Timeout))
    } else if c == 2 {
        Some(ProbeOutcome::DialFailed(DialError::ConnectionRefused))
    } else if c == 3 {
        Some(ProbeOutcome::DialFailed(DialError::Unreachable))
    } else if c == 4 {
        Some(ProbeOutcome::DialFailed(DialError::HandshakeIncomplete))
    } else if c == 5 {
        Some(ProbeOutcome::Refused(RefusalReason::InvalidAddress))
    } else if c == 6 {
        Some(ProbeOutcome::Refused(RefusalReason::RateLimited))
    } else {
        None
    }
}

/// The seven bytes of an address.
pub open spec fn spec_address_bytes(a: Address) -> Seq<u8> {
    seq![spec_transport_code(a.transport)] + spec_u32_to_le_bytes(a.ip) + spec_u16_to_le_bytes(
        a.port,
    )
}

/// The address that `b` stands for: seven bytes, the first a transport.
pub open spec fn spec_parse_address(b: Seq<u8>) -> Option<Address> {
    if b.len() == 7 && b[0] <= 1 {
        Some(
            Address {
                ip: spec_u32_from_le_bytes(b.subrange(1, 5)),
                port: spec_u16_from_le_bytes(b.subrange(5, 7)),
                transport: if b[0] == 0 {
                    Transport::Tcp
                } else {
                    Transport::QuicV1
                },
            },
        )
    } else {
        None
    }
}

/// The twenty-six bytes of a response.
pub open spec fn spec_response_bytes(r: DialBackResponse) -> Seq<u8> {
    seq![PROTOCOL_VERSION, KIND_RESPONSE] + spec_u64_to_le_bytes(r.nonce) + spec_address_bytes(
        r.tested_addr,
    ) + spec_u64_to_le_bytes(r.bytes_sent) + seq![spec_outcome_code(r.outcome)]
}

/// The response that `b` stands for, or why it stands for none.
pub open spec fn spec_parse_response(b: Seq<u8>) -> Result<DialBackResponse, WireError> {
    if b.len() == 0 {
        Err(WireError::Malformed)
    } else if b[0] != PROTOCOL_VERSION {
        Err(WireError::UnsupportedVersion)
    } else if b.len() != 26 || b[1] != KIND_RESPONSE {
        Err(WireError::Malformed)
    } else {
        match (spec_parse_address(b.subrange(10, 17)), spec_outcome_of(b[25])) {
            (Some(a), Some(o)) => Ok(
                DialBackResponse {
                    nonce: spec_u64_from_le_bytes(b.subrange(2, 10)),
                    tested_addr: a,
                    bytes_sent: spec_u64_from_le_bytes(b.subrange(17, 25)),
                    outcome: o,
                },
            ),
            _ => Err(WireError::Malformed),
        }
    }
}

/// The byte that stands for `o`.
pub fn outcome_code(o: ProbeOutcome) -> (c: u8)
    ensures
        c == spec_outcome_code(o),
        spec_outcome_of(c) == Some(o),
{
    match o {
        ProbeOutcome::Success => 0,
        ProbeOutcome::DialFailed(DialError::Timeout) => 1,
        ProbeOutcome::DialFailed(DialError::ConnectionRefused) => 2,
        ProbeOutcome::DialFailed(DialError::Unreachable) => 3,
        ProbeOutcome::DialFailed(DialError::HandshakeIncomplete) => 4,
        ProbeOutcome::Refused(RefusalReason::InvalidAddress) => 5,
        ProbeOutcome::Refused(RefusalReason::RateLimited) => 6,
    }
}

/// The outcome that the byte `c` stands for, if any.
pub fn outcome_of(c: u8) -> (r: Option<ProbeOutcome>)
    ensures
        r == spec_outcome_of(c),
{
    if c == 0 {
        Some(ProbeOutcome::Success)
    } else if c == 1 {
        Some(ProbeOutcome::DialFailed(DialError::Timeout))
    } else if c == 2 {
        Some(ProbeOutcome::DialFailed(DialError::ConnectionRefused))
    } else if c == 3 {
        Some(ProbeOutcome::DialFailed(DialError::Unreachable))
    } else if c == 4 {
        Some(ProbeOutcome::DialFailed(DialError::HandshakeIncomplete))
    } else if c == 5 {
        Some(ProbeOutcome::Refused(RefusalReason::InvalidAddress))
    } else if c == 6 {
        Some(ProbeOutcome::Refused(RefusalReason::RateLimited))
    } else {
        None
    }
}

/// Writes the bytes of `a` behind what `out` holds.
pub fn put_address(out: &mut Vec<u8>, a: Address)
    ensures
        final(out)@ == old(out)@ + spec_address_bytes(a),
{
    let ghost before = out@;
    let code: u8 = match a.transport {
        Transport::Tcp => 0,
        Transport::QuicV1 => 1,
    };
    out.push(code);
    let mut ip = u32_to_le_bytes(a.ip);
    out.append(&mut ip);
    let mut port = u16_to_le_bytes(a.port);
    out.append(&mut port);
    proof {
        assert(out@ =~= before + spec_address_bytes(a));
    }
}

/// Reads an address from `b`.
pub fn parse_address(b: &[u8]) -> (r: Option<Address>)
    ensures
        r == spec_parse_address(b@),
{
    if b.len() != 7 || b[0] > 1 {
        return None;
    }
    let ip = u32_from_le_bytes(slice_subrange(b, 1, 5));
    let port = u16_from_le_bytes(slice_subrange(b, 5, 7));
    let transport = if b[0] == 0 {
        Transport::Tcp
    } else {
        Transport::QuicV1
    };
    Some(Address { ip, port, transport })
}

/// The bytes of the response `r`.
pub fn encode_response(r: &DialBackResponse) -> (out: Vec<u8>)
    ensures
        out@ == spec_response_bytes(*r),
{
    let mut out: Vec<u8> = Vec::new();
    out.push(PROTOCOL_VERSION);
    out.push(KIND_RESPONSE);
    let mut nonce = u64_to_le_bytes(r.nonce);
    out.append(&mut nonce);
    put_address(&mut out, r.tested_addr);
    let mut sent = u64_to_le_bytes(r.bytes_sent);
    out.append(&mut sent);
    out.push(outcome_code(r.outcome));
    proof {
        assert(out@ =~= spec_response_bytes(*r));
    }
    out
}

/// Reads a response from `b`.
pub fn decode_response(b: &[u8]) -> (r: Result<DialBackResponse, WireError>)
    ensures
        r == spec_parse_response(b@),
{
    if b.len() == 0 {
        return Err(WireError::Malformed);
    }
    if b[0] != PROTOCOL_VERSION {
        return Err(WireError::UnsupportedVersion);
    }
    if b.len() != 26 || b[1] != KIND_RESPONSE {
        return Err(WireError::Malformed);
    }
    let addr = parse_address(slice_subrange(b, 10, 17));
    let outcome = outcome_of(b[25]);
    match (addr, outcome) {
        (Some(a), Some(o)) => Ok(
            DialBackResponse {
                nonce: u64_from_le_bytes(slice_subrange(b, 2, 10)),
                tested_addr: a,
                bytes_sent: u64_from_le_bytes(slice_subrange(b, 17, 25)),
                outcome: o,
            },
        ),
        _ => Err(WireError::Malformed),
    }
}

/// An address has seven bytes, and reading them gives the address back.
pub proof fn lemma_address_round_trip(a: Address)
    ensures
        spec_address_bytes(a).len() == 7,
        spec_parse_address(spec_address_bytes(a)) == Some(a),
{
    lemma_auto_spec_u32_to_from_le_bytes();
    lemma_auto_spec_u16_to_from_le_bytes();
    let b = spec_address_bytes(a);
    assert(b.subrange(1, 5) =~= spec_u32_to_le_bytes(a.ip));
    assert(b.subrange(5, 7) =~= spec_u16_to_le_bytes(a.port));
}

/// A response has twenty-six bytes, and reading them gives the response
/// back.
pub proof fn lemma_response_round_trip(r: DialBackResponse)
    ensures
        spec_response_bytes(r).len() == 26,
        spec_parse_response(spec_response_bytes(r)) == Ok::<DialBackResponse, WireError>(r),
{
    lemma_auto_spec_u64_to_from_le_bytes();
    lemma_address_round_trip(r.tested_addr);
    let b = spec_response_bytes(r);
    assert(b.subrange(2, 10) =~= spec_u64_to_le_bytes(r.nonce));
    assert(b.subrange(10, 17) =~= spec_address_bytes(r.tested_addr));
    assert(b.subrange(17, 25) =~= spec_u64_to_le_bytes(r.bytes_sent));
    assert(b[25] == spec_outcome_code(r.outcome));
    assert(b[0] == PROTOCOL_VERSION);
    assert(b[1] == KIND_RESPONSE);
}

/// The bytes of the addresses `s`, one address after another.
pub open spec fn spec_addresses_bytes(s: Seq<Address>) -> Seq<u8>
    decreases s.len(),
{
    if s.len() == 0 {
        Seq::empty()
    } else {
        spec_addresses_bytes(s.drop_last()) + spec_address_bytes(s.last())
    }
}

/// The bytes of the request `q`, which names at most 255 addresses.
pub open spec fn spec_request_bytes(q: RequestModel) -> Seq<u8>
    recommends
        q.addresses.len() <= 255,
{
    seq![PROTOCOL_VERSION, KIND_REQUEST] + spec_u64_to_le_bytes(q.nonce) + spec_u64_to_le_bytes(
        q.requester_hint.id,
    ) + seq![q.addresses.len() as u8] + spec_addresses_bytes(q.addresses)
}

/// The bytes in `b` of the address at position `i` of a request.
pub open spec fn spec_chunk(b: Seq<u8>, i: int) -> Seq<u8> {
    b.subrange(19 + 7 * i, 26 + 7 * i)
}

/// The request that `b` stands for, or why it stands for none.
pub open spec fn spec_parse_request(b: Seq<u8>) -> Result<RequestModel, WireError> {
    if b.len() == 0 {
        Err(WireError::Malformed)
    } else if b[0] != PROTOCOL_VERSION {
        Err(WireError::UnsupportedVersion)
    } else if b.len() < 19 || b[1] != KIND_REQUEST {
        Err(WireError::Malformed)
    } else if b.len() != 19 + 7 * b[18] {
        Err(WireError::Malformed)
    } else if forall|i: int|
        0 <= i < b[18] ==> spec_parse_address(#[trigger] spec_chunk(b, i)).is_some() {
        Ok(
            RequestModel {
                nonce: spec_u64_from_le_bytes(b.subrange(2, 10)),
                addresses: Seq::new(
                    b[18] as nat,
                    |i: int| spec_parse_address(spec_chunk(b, i)).unwrap(),
                ),
                requester_hint: PeerId { id: spec_u64_from_le_bytes(b.subrange(10, 18)) },
            },
        )
    } else {
        Err(WireError::Malformed)
    }
}

/// The bytes of the request `q`, or `TooManyAddresses` where it names more
/// than 255.
pub fn encode_request(q: &ProbeRequest) -> (r: Result<Vec<u8>, WireError>)
    ensures
        match r {
            Ok(out) => q@.addresses.len() <= 255 && out@ == spec_request_bytes(q@),
            Err(e) => e == WireError::TooManyAddresses && q@.addresses.len() > 255,
        },
{
    let n = q.addresses.len();
    if n > 255 {
        return Err(WireError::TooManyAddresses);
    }
    let mut out: Vec<u8> = Vec::new();
    out.push(PROTOCOL_VERSION);
    out.push(KIND_REQUEST);
    let mut nonce = u64_to_le_bytes(q.nonce);
    out.append(&mut nonce);
    let mut hint = u64_to_le_bytes(q.requester_hint.id);
    out.append(&mut hint);
    out.push(n as u8);
    let ghost head = out@;
    proof {
        assert(head =~= seq![PROTOCOL_VERSION, KIND_REQUEST] + spec_u64_to_le_bytes(q.nonce)
            + spec_u64_to_le_bytes(q.requester_hint.id) + seq![q@.addresses.len() as u8]);
        assert(q.addresses@.take(0) =~= Seq::<Address>::empty());
    }
    let mut i: usize = 0;
    while i < n
        invariant
            n == q.addresses@.len(),
            i <= n,
            out@ == head + spec_addresses_bytes(q.addresses@.take(i as int)),
        decreases n - i,
    {
        put_address(&mut out, q.addresses[i]);
        proof {
            let next = q.addresses@.take(i + 1);
            assert(next.drop_last() =~= q.addresses@.take(i as int));
            assert(next.last() == q.addresses@[i as int]);
            assert(out@ =~= head + spec_addresses_bytes(next));
        }
        i += 1;
    }
    proof {
        assert(q.addresses@.take(n as int) =~= q.addresses@);
    }
    Ok(out)
}

/// Reads a request from `b`.
pub fn decode_request(b: &[u8]) -> (r: Result<ProbeRequest, WireError>)
    ensures
        match (r, spec_parse_request(b@)) {
            (Ok(q), Ok(m)) => q@ == m,
            (Err(e), Err(f)) => e == f,
            _ => false,
        },
{
    if b.len() == 0 {
        return Err(WireError::Malformed);
    }
    if b[0] != PROTOCOL_VERSION {
        return Err(WireError::UnsupportedVersion);
    }
    if b.len() < 19 || b[1] != KIND_REQUEST {
        return Err(WireError::Malformed);
    }
    let count: usize = b[18] as usize;
    if b.len() != 19 + 7 * count {
        return Err(WireError::Malformed);
    }
    let mut addresses: Vec<Address> = Vec::new();
    let mut i: usize = 0;
    while i < count
        invariant
            b@[0] == PROTOCOL_VERSION,
            b@[1] == KIND_REQUEST,
            count == b@[18],
            b@.len() == 19 + 7 * count,
            i <= count,
            addresses@.len() == i,
            forall|j: int|
                0 <= j < i ==> spec_parse_address(#[trigger] spec_chunk(b@, j)) == Some(
                    addresses@[j],
                ),
        decreases count - i,
    {
        match parse_address(slice_subrange(b, 19 + 7 * i, 26 + 7 * i)) {
            Some(a) => {
                addresses.push(a);
            },
            None => {
                proof {
                    assert(spec_parse_address(spec_chunk(b@, i as int)).is_none());
                }
                return Err(WireError::Malformed);
            },
        }
        i += 1;
    }
    let nonce = u64_from_le_bytes(slice_subrange(b, 2, 10));
    let hint = u64_from_le_bytes(slice_subrange(b, 10, 18));
    proof {
        assert(addresses@ =~= Seq::new(
            b@[18] as nat,
            |i: int| spec_parse_address(spec_chunk(b@, i)).unwrap(),
        ));
    }
    Ok(ProbeRequest { nonce, addresses, requester_hint: PeerId { id: hint } })
}

/// The addresses `s` take seven bytes each, and those of the address at
/// position `i` are its own.
pub proof fn lemma_addresses_bytes(s: Seq<Address>, i: int)
    ensures
        spec_addresses_bytes(s).len() == 7 * s.len(),
        0 <= i < s.len() ==> spec_addresses_bytes(s).subrange(7 * i, 7 * i + 7)
            == spec_address_bytes(s[i]),
    decreases s.len(),
{
    if s.len() > 0 {
        let rest = s.drop_last();
        lemma_addresses_bytes(rest, i);
        lemma_address_round_trip(s.last());
        let all = spec_addresses_bytes(s);
        if 0 <= i < rest.len() {
            assert(all.subrange(7 * i, 7 * i + 7) =~= spec_addresses_bytes(rest).subrange(
                7 * i,
                7 * i + 7,
            ));
        } else if i == rest.len() {
            assert(all.subrange(7 * i, 7 * i + 7) =~= spec_address_bytes(s.last()));
        }
    }
}

/// Reading the bytes of a request that names at most 255 addresses gives the
/// request back.
pub proof fn lemma_request_round_trip(q: RequestModel)
    requires
        q.addresses.len() <= 255,
    ensures
        spec_request_bytes(q).len() == 19 + 7 * q.addresses.len(),
        spec_parse_request(spec_request_bytes(q)) == Ok::<RequestModel, WireError>(q),
{
    lemma_auto_spec_u64_to_from_le_bytes();
    lemma_addresses_bytes(q.addresses, 0);
    let b = spec_request_bytes(q);
    let body = spec_addresses_bytes(q.addresses);
    assert(b.subrange(2, 10) =~= spec_u64_to_le_bytes(q.nonce));
    assert(b.subrange(10, 18) =~= spec_u64_to_le_bytes(q.requester_hint.id));
    assert(b[0] == PROTOCOL_VERSION);
    assert(b[1] == KIND_REQUEST);
    assert(b[18] == q.addresses.len());
    assert forall|i: int| 0 <= i < q.addresses.len() implies spec_parse_address(
        #[trigger] spec_chunk(b, i),
    ) == Some(q.addresses[i]) by {
        lemma_addresses_bytes(q.addresses, i);
        lemma_address_round_trip(q.addresses[i]);
        assert(spec_chunk(b, i) =~= body.subrange(7 * i, 7 * i + 7));
    }
    let parsed = Seq::new(b[18] as nat, |i: int| spec_parse_address(spec_chunk(b, i)).unwrap());
    assert(parsed =~= q.addresses);
}

} // verus!
