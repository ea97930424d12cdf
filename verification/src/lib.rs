//! Reachability probing between peers: a client asks servers to dial one of
//! its candidate addresses back and records what they report.

pub mod address_book;
pub mod codec;
pub mod nonce;
pub mod rate_limit;
pub mod scheduler;
pub mod server;
pub mod wire;
