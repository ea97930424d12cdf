//! Nonces from the operating system's random source.

use rand::rngs::OsRng;
use rand::RngCore;
use vstd::prelude::*;

verus! {

/// Calls `try_fill_bytes` of rand's `OsRng` on a buffer of eight bytes and
/// hands the buffer back, or `None` where the system's source failed. The
/// call fills the buffer in place, so what comes back has eight bytes;
/// nothing is claimed of what they hold.
#[verifier::external_body]
fn os_random_bytes() -> (r: Option<Vec<u8>>)
    ensures
        r matches Some(bytes) ==> bytes@.len() == 8,
{
    let mut buf = [0u8; 8];
    match OsRng.try_fill_bytes(&mut buf) {
        Ok(()) => Some(buf.to_vec()),
        Err(_) => None,
    }
}

/// The nonce that `bytes` stand for: their value read as a little-endian
/// number, where there are exactly eight of them.
pub open spec fn spec_nonce_of(bytes: Seq<u8>) -> Option<u64> {
    if bytes.len() == 8 {
        Some(vstd::bytes::spec_u64_from_le_bytes(bytes))
    } else {
        None
    }
}

/// The nonce that `bytes` stand for.
pub fn nonce_of(bytes: &Vec<u8>) -> (r: Option<u64>)
    ensures
        r == spec_nonce_of(bytes@),
{
    if bytes.len() == 8 {
        Some(vstd::bytes::u64_from_le_bytes(bytes.as_slice()))
    } else {
        None
    }
}

/// A nonce drawn from the operating system's random source, or `None` where
/// that source failed. Each call may give another value.
pub fn fresh_nonce() -> (r: Option<u64>) {
    match os_random_bytes() {
        Some(bytes) => nonce_of(&bytes),
        None => None,
    }
}

} // verus!
