//! The values that a probe exchange carries.

use vstd::prelude::*;

verus! {

/// How a candidate address is reached.
#[derive(Clone, Copy, Debug, PartialEq, Eq, Structural)]
pub enum Transport {
    Tcp,
    QuicV1,
}

/// A network address: an IPv4 address as a big-endian number, a port and the
/// transport spoken on it.
#[derive(Clone, Copy, Debug, PartialEq, Eq, Structural)]
pub struct Address {
    pub ip: u32,
    pub port: u16,
    pub transport: Transport,
}

/// The identity of a peer.
#[derive(Clone, Copy, Debug, PartialEq, Eq, Structural)]
pub struct PeerId {
    pub id: u64,
}

/// Why a server's outbound dial did not complete.
#[derive(Clone, Copy, Debug, PartialEq, Eq, Structural)]
pub enum DialError {
    Timeout,
    ConnectionRefused,
    Unreachable,
    /// The connection opened but no verification bytes were exchanged.
    HandshakeIncomplete,
}

/// Why a server declined a request without dialing.
#[derive(Clone, Copy, Debug, PartialEq, Eq, Structural)]
pub enum RefusalReason {
    InvalidAddress,
    RateLimited,
}

/// What a server reports of one probe.
#[derive(Clone, Copy, Debug, PartialEq, Eq, Structural)]
pub enum ProbeOutcome {
    Success,
    DialFailed(DialError),
    Refused(RefusalReason),
}

/// A client's request that the server dial one of `addresses` back.
#[derive(Clone, Debug)]
pub struct ProbeRequest {
    pub nonce: u64,
    pub addresses: Vec<Address>,
    pub requester_hint: PeerId,
}

/// What a request holds, with its addresses as a sequence.
pub struct RequestModel {
    pub nonce: u64,
    pub addresses: Seq<Address>,
    pub requester_hint: PeerId,
}

impl View for ProbeRequest {
    type V = RequestModel;

    open spec fn view(&self) -> RequestModel {
        RequestModel {
            nonce: self.nonce,
            addresses: self.addresses@,
            requester_hint: self.requester_hint,
        }
    }
}

/// A server's answer to the request that carried `nonce`.
#[derive(Clone, Copy, Debug, PartialEq, Eq, Structural)]
pub struct DialBackResponse {
    pub nonce: u64,
    pub tested_addr: Address,
    pub bytes_sent: u64,
    pub outcome: ProbeOutcome,
}

/// Whether `ip` lies outside the ranges that cannot be reached from another
/// network: this network, private, loopback, link-local, multicast and
/// reserved.
pub open spec fn spec_is_public_ip(ip: u32) -> bool {
    let a = ip / 0x100_0000;
    let b = (ip / 0x1_0000) % 0x100;
    &&& a != 0
    &&& a != 10
    &&& a != 127
    &&& !(a == 172 && 16 <= b && b <= 31)
    &&& !(a == 192 && b == 168)
    &&& !(a == 169 && b == 254)
    &&& a < 224
}

/// Whether a server may dial `addr`: a public address with a port.
pub open spec fn spec_is_dialable(addr: Address) -> bool {
    spec_is_public_ip(addr.ip) && addr.port != 0
}

impl Address {
    /// The address that stands for "none": all zero, over TCP.
    pub open spec fn spec_unspecified() -> Address {
        Address { ip: 0, port: 0, transport: Transport::Tcp }
    }

    /// The address that stands for "none".
    pub fn unspecified() -> (r: Address)
        ensures
            r == Address::spec_unspecified(),
    {
        Address { ip: 0, port: 0, transport: Transport::Tcp }
    }

    /// Whether a server may dial this address.
    pub fn is_dialable(&self) -> (r: bool)
        ensures
            r == spec_is_dialable(*self),
    {
        let a: u32 = self.ip / 0x100_0000;
        let b: u32 = (self.ip / 0x1_0000) % 0x100;
        let public = a != 0 && a != 10 && a != 127 && !(a == 172 && 16 <= b && b <= 31) && !(a
            == 192 && b == 168) && !(a == 169 && b == 254) && a < 224;
        public && self.port != 0
    }
}

} // verus!
