[package]
name = "autonat_probe"
version = "0.1.0"
edition = "2021"
publish = false

[dependencies]
rand = "0.8"
clap = { version = "4", features = ["derive"] }
tokio = { version = "1", features = ["macros", "rt-multi-thread"] }
libp2p = { version = "0.54", features = ["autonat", "identify", "macros", "noise", "quic", "tcp", "tokio", "yamux"] }
